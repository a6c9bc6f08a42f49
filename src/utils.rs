use vstd::prelude::*;
use vstd::string::*;

use std::collections::hash_map::DefaultHasher;
use vstd::std_specs::hash::DefaultHasherAdditionalSpecFns;

use crate::error::GarbageError;
use crate::paths::{join_path, joined, trim_separators, trim_trailing_separators};

verus! {

/// How long a cache entry stays usable when no durability is given: five minutes, in
/// nanoseconds.
pub const DEFAULT_CACHE_DURABILITY_NANOS: u128 = 300_000_000_000;

pub open spec fn durability_or_default(durability: Option<u128>) -> int {
    match durability {
        Some(d) => d as int,
        None => DEFAULT_CACHE_DURABILITY_NANOS as int,
    }
}

/// A cache entry last modified at `modified` is still usable at `now` (both in
/// nanoseconds since the Unix epoch).
pub open spec fn cache_is_fresh(modified: int, now: int, durability: Option<u128>) -> bool {
    now < modified + durability_or_default(durability)
}

/// Whether the time `now` lies before the expiry time `estimated_time`.
pub fn is_cache_durable(now: u128, estimated_time: u128) -> (r: bool)
    ensures
        r == (now < estimated_time),
{
    now < estimated_time
}

pub fn is_cache_fresh(modified: u128, now: u128, durability: Option<u128>) -> (r: bool)
    ensures
        r == cache_is_fresh(modified as int, now as int, durability),
{
    let d = match durability {
        Some(d) => d,
        None => DEFAULT_CACHE_DURABILITY_NANOS,
    };
    now < modified || now - modified < d
}

/// The state of the cache entry of a path, given its modification time if it exists.
pub open spec fn cache_entry_status(modified: Option<u128>, now: u128, durability: Option<u128>) -> Result<
    (),
    GarbageError,
> {
    match modified {
        None => Err(GarbageError::MissingCache),
        Some(m) => if cache_is_fresh(m as int, now as int, durability) {
            Ok(())
        } else {
            Err(GarbageError::InvalidCache)
        },
    }
}

/// Decides whether a cache entry may be read: it must exist and still be fresh.
pub fn check_cache_entry(modified: Option<u128>, now: u128, durability: Option<u128>) -> (r: Result<
    (),
    GarbageError,
>)
    ensures
        r == cache_entry_status(modified, now, durability),
{
    match modified {
        None => Err(GarbageError::MissingCache),
        Some(m) => if is_cache_fresh(m, now, durability) {
            Ok(())
        } else {
            Err(GarbageError::InvalidCache)
        },
    }
}

/// Decides whether a write goes to disk: it is skipped only while an existing entry is
/// still fresh.
pub fn cache_needs_write(existing_modified: Option<u128>, now: u128, durability: Option<u128>) -> (r: bool)
    ensures
        r == !(cache_entry_status(existing_modified, now, durability) is Ok),
{
    match existing_modified {
        None => true,
        Some(m) => !is_cache_fresh(m, now, durability),
    }
}

/// An entry written with a durability of zero is expired as soon as it is read.
pub proof fn lemma_zero_durability_expires(modified: u128, now: u128)
    requires
        modified <= now,
    ensures
        cache_entry_status(Some(modified), now, Some(0)) == Err::<(), GarbageError>(GarbageError::InvalidCache),
{
}

/// The sum of a sequence of sizes.
pub open spec fn sum_sizes(s: Seq<u64>) -> int
    decreases s.len(),
{
    if s.len() == 0 {
        0
    } else {
        sum_sizes(s.drop_last()) + s.last()
    }
}

/// The sum of `sizes`, or `None` where it does not fit in 64 bits.
pub fn checked_total(sizes: &Vec<u64>) -> (r: Option<u64>)
    ensures
        r matches Some(t) ==> t == sum_sizes(sizes@),
        r is None ==> sum_sizes(sizes@) > u64::MAX,
{
    let mut sum: u64 = 0;
    let mut i: usize = 0;
    while i < sizes.len()
        invariant
            i <= sizes@.len(),
            sum == sum_sizes(sizes@.subrange(0, i as int)),
        decreases sizes@.len() - i,
    {
        assert(sizes@.subrange(0, i + 1).drop_last() =~= sizes@.subrange(0, i as int));
        if sum > u64::MAX - sizes[i] {
            proof {
                lemma_sum_sizes_grows(sizes@, i + 1);
            }
            return None;
        }
        sum = sum + sizes[i];
        i += 1;
    }
    assert(sizes@.subrange(0, i as int) =~= sizes@);
    Some(sum)
}

proof fn lemma_sum_sizes_grows(s: Seq<u64>, i: int)
    requires
        0 <= i <= s.len(),
    ensures
        sum_sizes(s.subrange(0, i)) <= sum_sizes(s),
    decreases s.len(),
{
    if i == s.len() {
        assert(s.subrange(0, i) =~= s);
    } else {
        lemma_sum_sizes_grows(s.drop_last(), i);
        assert(s.drop_last().subrange(0, i) =~= s.subrange(0, i));
    }
}

pub open spec fn pow1000(k: nat) -> nat
    decreases k,
{
    if k == 0 {
        1
    } else {
        1000 * pow1000((k - 1) as nat)
    }
}

/// The unit names, from bytes upwards in steps of a thousand.
pub open spec fn unit_name(k: nat) -> Seq<char> {
    if k == 0 {
        "B"@
    } else if k == 1 {
        "kB"@
    } else if k == 2 {
        "MB"@
    } else if k == 3 {
        "GB"@
    } else if k == 4 {
        "TB"@
    } else if k == 5 {
        "PB"@
    } else if k == 6 {
        "EB"@
    } else if k == 7 {
        "ZB"@
    } else {
        "YB"@
    }
}

/// The unit for `bytes`, searching upwards from unit `k`: the largest one, up to the
/// last, that `bytes` reaches.
pub open spec fn unit_from(bytes: nat, k: nat) -> nat
    decreases 8 - k,
{
    if k < 8 && bytes >= pow1000(k + 1) {
        unit_from(bytes, k + 1)
    } else {
        k
    }
}

/// `bytes` in hundredths of its unit, rounded to nearest, ties to even.
pub open spec fn hundredths(bytes: nat) -> nat {
    let d = pow1000(unit_from(bytes, 0));
    let q = (bytes * 100) / d;
    let rem = (bytes * 100) % d;
    if 2 * rem > d || (2 * rem == d && q % 2 == 1) {
        q + 1
    } else {
        q
    }
}

pub open spec fn digit_char(d: nat) -> char {
    seq!['0', '1', '2', '3', '4', '5', '6', '7', '8', '9'][d as int]
}

/// The decimal digits of `n`, without leading zeros.
pub open spec fn decimal(n: nat) -> Seq<char>
    decreases n,
{
    if n < 10 {
        seq![digit_char(n)]
    } else {
        decimal(n / 10).push(digit_char(n % 10))
    }
}

/// A byte count as a human-readable size: two decimals and the unit, e.g. `1.50 kB`.
pub open spec fn format_bytes_spec(bytes: nat) -> Seq<char> {
    let h = hundredths(bytes);
    let frac = h % 100;
    decimal(h / 100) + seq!['.', digit_char(frac / 10), digit_char(frac % 10), ' '] + unit_name(
        unit_from(bytes, 0),
    )
}

fn digit_str(d: u128) -> (r: &'static str)
    requires
        d < 10,
    ensures
        r@ == seq![digit_char(d as nat)],
{
    proof {
        reveal_strlit("0");
        reveal_strlit("1");
        reveal_strlit("2");
        reveal_strlit("3");
        reveal_strlit("4");
        reveal_strlit("5");
        reveal_strlit("6");
        reveal_strlit("7");
        reveal_strlit("8");
        reveal_strlit("9");
    }
    if d == 0 {
        "0"
    } else if d == 1 {
        "1"
    } else if d == 2 {
        "2"
    } else if d == 3 {
        "3"
    } else if d == 4 {
        "4"
    } else if d == 5 {
        "5"
    } else if d == 6 {
        "6"
    } else if d == 7 {
        "7"
    } else if d == 8 {
        "8"
    } else {
        "9"
    }
}

fn unit_str(k: usize) -> (r: &'static str)
    ensures
        r@ == unit_name(k as nat),
{
    if k == 0 {
        "B"
    } else if k == 1 {
        "kB"
    } else if k == 2 {
        "MB"
    } else if k == 3 {
        "GB"
    } else if k == 4 {
        "TB"
    } else if k == 5 {
        "PB"
    } else if k == 6 {
        "EB"
    } else if k == 7 {
        "ZB"
    } else {
        "YB"
    }
}

/// The decimal representation of `n`.
pub fn decimal_string(n: u128) -> (r: String)
    ensures
        r@ == decimal(n as nat),
{
    let mut n = n;
    let ghost orig = n as nat;
    let mut acc = String::new();
    assert(acc@ =~= Seq::<char>::empty());
    assert(decimal(orig) =~= decimal(n as nat) + acc@);
    while n >= 10
        invariant
            decimal(orig) == decimal(n as nat) + acc@,
        decreases n,
    {
        let c = digit_str(n % 10);
        let mut s = String::from_str(c);
        s.append(acc.as_str());
        assert(decimal(n as nat) == decimal((n / 10) as nat).push(digit_char((n % 10) as nat)));
        assert(decimal(n as nat) + acc@ =~= decimal((n / 10) as nat) + s@);
        acc = s;
        n = n / 10;
    }
    let mut s = String::from_str(digit_str(n));
    s.append(acc.as_str());
    s
}

/// Renders a byte count with two decimals in the largest unit (steps of a thousand)
/// that it reaches.
pub fn format_bytes(bytes: u64) -> (r: String)
    ensures
        r@ == format_bytes_spec(bytes as nat),
{
    let b = bytes as u128;
    let mut unit: usize = 0;
    let mut divisor: u128 = 1;
    while unit < 8 && b >= divisor * 1000
        invariant
            unit <= 8,
            divisor == pow1000(unit as nat),
            b == bytes as u128,
            1 <= divisor <= u64::MAX,
            unit_from(b as nat, 0) == unit_from(b as nat, unit as nat),
        decreases 8 - unit,
    {
        divisor = divisor * 1000;
        unit += 1;
    }
    let q = (b * 100) / divisor;
    let rem = (b * 100) % divisor;
    let h = if 2 * rem > divisor || (2 * rem == divisor && q % 2 == 1) {
        q + 1
    } else {
        q
    };
    let frac = h % 100;
    let mut r = decimal_string(h / 100);
    proof {
        reveal_strlit(".");
        reveal_strlit(" ");
    }
    r.append(".");
    r.append(digit_str(frac / 10));
    r.append(digit_str(frac % 10));
    r.append(" ");
    r.append(unit_str(unit));
    assert(r@ =~= format_bytes_spec(bytes as nat));
    r
}

/// Names the writes that std's `Hash` impl for `Path` makes into a hasher.
pub uninterp spec fn path_hash_writes(p: Seq<char>) -> Seq<Seq<u8>>;

/// Relies on std's `impl Hash for Path`: it feeds the hasher a run of byte writes
/// that depends on the path alone.
#[verifier::external_body]
fn hash_path_into(p: &str, hasher: &mut DefaultHasher)
    ensures
        final(hasher)@ == old(hasher)@ + path_hash_writes(p@),
{
    std::hash::Hash::hash(std::path::Path::new(p), hasher)
}

/// The 64-bit hash of a path: a fresh `DefaultHasher` fed the path's writes.
pub open spec fn path_hash(p: Seq<char>) -> u64 {
    DefaultHasher::spec_finish(path_hash_writes(p))
}

pub fn hash_path(p: &str) -> (r: u64)
    ensures
        r == path_hash(p@),
{
    let mut hasher = DefaultHasher::new();
    hash_path_into(p, &mut hasher);
    assert(hasher@ =~= path_hash_writes(p@));
    std::hash::Hasher::finish(&hasher)
}

/// The standard base64 alphabet.
pub open spec fn base64_alphabet() -> Seq<char> {
    "ABCDEFGHIJKLMNOPQRSTUVWXYZabcdefghijklmnopqrstuvwxyz0123456789+/"@
}

pub open spec fn b64(v: int) -> char {
    base64_alphabet()[v]
}

/// Base64 with the standard alphabet and no padding: four characters for each three
/// bytes, two for a trailing byte and three for a trailing pair.
pub open spec fn base64_no_pad(b: Seq<u8>) -> Seq<char>
    decreases b.len(),
{
    let x = if b.len() > 0 { b[0] as int } else { 0 };
    let y = if b.len() > 1 { b[1] as int } else { 0 };
    let z = if b.len() > 2 { b[2] as int } else { 0 };
    if b.len() == 0 {
        Seq::empty()
    } else if b.len() == 1 {
        seq![b64(x / 4), b64((x % 4) * 16)]
    } else if b.len() == 2 {
        seq![b64(x / 4), b64((x % 4) * 16 + y / 16), b64((y % 16) * 4)]
    } else {
        seq![b64(x / 4), b64((x % 4) * 16 + y / 16), b64((y % 16) * 4 + z / 64), b64(z % 64)] + base64_no_pad(
            b.subrange(3, b.len() as int),
        )
    }
}

/// Relies on base64's `engine::general_purpose::STANDARD_NO_PAD.encode`: the standard
/// alphabet without padding; it panics only where the encoded length overflows `usize`.
#[verifier::external_body]
fn encode_base64_no_pad(b: &Vec<u8>) -> (r: String)
    requires
        b@.len() <= usize::MAX / 2,
    ensures
        r@ == base64_no_pad(b@),
{
    base64::Engine::encode(&base64::engine::general_purpose::STANDARD_NO_PAD, b)
}

/// The eight bytes of `x`, most significant first.
pub open spec fn be_bytes(x: u64) -> Seq<u8> {
    Seq::new(8, |i: int| ((x >> ((56 - 8 * i) as u64)) & 0xff) as u8)
}

pub fn to_be_bytes(x: u64) -> (r: Vec<u8>)
    ensures
        r@ == be_bytes(x),
{
    let mut r: Vec<u8> = Vec::new();
    let mut i: u64 = 0;
    while i < 8
        invariant
            i <= 8,
            r@.len() == i,
            forall|k: int| 0 <= k < i ==> r@[k] == ((x >> ((56 - 8 * k) as u64)) & 0xff) as u8,
        decreases 8 - i,
    {
        r.push(((x >> (56 - 8 * i)) & 0xff) as u8);
        i += 1;
    }
    assert(r@ =~= be_bytes(x));
    r
}

/// The base64 form of the hash of a root with its trailing separators removed.
pub open spec fn cache_name(root: Seq<char>) -> Seq<char> {
    base64_no_pad(be_bytes(path_hash(trim_trailing_separators(root))))
}

/// `s` with each `/` replaced by `_`, so that it names a single file.
pub open spec fn file_safe(s: Seq<char>) -> Seq<char> {
    Seq::new(s.len(), |i: int| if s[i] == '/' { '_' } else { s[i] })
}

/// Where the cache entry of `root` lives under the temporary directory `temp_dir`.
pub open spec fn cache_location(temp_dir: Seq<char>, root: Seq<char>) -> Seq<char> {
    joined(joined(temp_dir, "wsg"@), file_safe(cache_name(root)))
}

/// The base64 form of the big-endian bytes of a hash.
pub fn encode_hash(h: u64) -> (r: String)
    ensures
        r@ == base64_no_pad(be_bytes(h)),
        r@.len() == 11,
{
    proof {
        let b = be_bytes(h);
        assert(b.subrange(3, 8).subrange(3, 5).len() == 2);
        assert(base64_no_pad(b.subrange(3, 8).subrange(3, 5)).len() == 3);
        assert(base64_no_pad(b.subrange(3, 8)).len() == 7);
        assert(base64_no_pad(b).len() == 11);
    }
    let bytes = to_be_bytes(h);
    encode_base64_no_pad(&bytes)
}

pub fn generate_base64_from_path(p: &str) -> (r: String)
    ensures
        r@ == cache_name(p@),
        r@.len() == 11,
{
    let trimmed = trim_separators(p);
    encode_hash(hash_path(trimmed.as_str()))
}

/// `s` with each `/` replaced by `_`.
pub fn to_file_safe(s: &str) -> (r: String)
    ensures
        r@ == file_safe(s@),
        !r@.contains('/'),
{
    let n = s.unicode_len();
    let mut r = String::new();
    let mut i: usize = 0;
    while i < n
        invariant
            n == s@.len(),
            i <= n,
            r@ == file_safe(s@.subrange(0, i as int)),
        decreases n - i,
    {
        let c = s.get_char(i);
        let ghost prev = r@;
        if c == '/' {
            proof {
                reveal_strlit("_");
            }
            assert("_"@ =~= seq!['_']);
            r.append("_");
        } else {
            let one = s.substring_char(i, i + 1);
            assert(one@ =~= seq![c]);
            r.append(one);
        }
        assert(r@ =~= prev.push(if c == '/' { '_' } else { c }));
        assert(s@.subrange(0, i + 1) =~= s@.subrange(0, i as int).push(c));
        i += 1;
        assert(r@ =~= file_safe(s@.subrange(0, i as int)));
    }
    assert(s@.subrange(0, n as int) =~= s@);
    r
}

/// The path of the cache file of `root`: one file directly under `wsg` in the temporary
/// directory `temp_dir`.
pub fn cache_file_path(temp_dir: &str, root: &str) -> (r: String)
    ensures
        r@ == cache_location(temp_dir@, root@),
{
    let dir = join_path(temp_dir, "wsg");
    let name = generate_base64_from_path(root);
    let safe = to_file_safe(name.as_str());
    join_path(dir.as_str(), safe.as_str())
}

/// Spellings of a root that differ only in how many separators trail it share one
/// cache entry.
pub proof fn lemma_cache_location_ignores_trailing_separators(temp_dir: Seq<char>, root: Seq<char>, k: nat)
    requires
        root.len() > 0,
    ensures
        cache_location(temp_dir, root + Seq::new(k, |i: int| '/')) == cache_location(temp_dir, root),
{
    crate::paths::lemma_trim_trailing_separators(root, k);
}

} // verus!
