use vstd::prelude::*;
use vstd::string::*;

use crate::paths::{do_paths_overlap, is_path_within, join_path, joined, path_within, paths_overlap};

verus! {

/// A marker path, relative to a candidate project root.
#[derive(Debug)]
pub enum FileType {
    File(String),
    Directory(String),
}

impl FileType {
    pub open spec fn marker(&self) -> Seq<char> {
        match self {
            FileType::File(s) => s@,
            FileType::Directory(s) => s@,
        }
    }

    pub fn path(&self) -> (r: &String)
        ensures
            r@ == self.marker(),
    {
        match self {
            FileType::File(s) => s,
            FileType::Directory(s) => s,
        }
    }
}

impl View for FileType {
    /// Whether the marker names a directory, and its relative path.
    type V = (bool, Seq<char>);

    open spec fn view(&self) -> (bool, Seq<char>) {
        match self {
            FileType::File(s) => (false, s@),
            FileType::Directory(s) => (true, s@),
        }
    }
}

/// Whether two markers are of the same kind and name the same path.
pub fn same_file_type(a: &FileType, b: &FileType) -> (r: bool)
    ensures
        r == (a@ == b@),
{
    match (a, b) {
        (FileType::File(x), FileType::File(y)) => x.eq(y),
        (FileType::Directory(x), FileType::Directory(y)) => x.eq(y),
        _ => false,
    }
}

/// Whether two marker lists hold equal markers in the same order.
pub fn same_markers(a: &Vec<FileType>, b: &Vec<FileType>) -> (r: bool)
    ensures
        r == (a@.map_values(|f: FileType| f@) == b@.map_values(|f: FileType| f@)),
{
    if a.len() != b.len() {
        assert(a@.map_values(|f: FileType| f@).len() != b@.map_values(|f: FileType| f@).len());
        return false;
    }
    let mut i: usize = 0;
    while i < a.len()
        invariant
            a@.len() == b@.len(),
            i <= a@.len(),
            forall|k: int| 0 <= k < i ==> a@[k]@ == b@[k]@,
        decreases a@.len() - i,
    {
        if !same_file_type(&a[i], &b[i]) {
            assert(a@.map_values(|f: FileType| f@)[i as int] != b@.map_values(|f: FileType| f@)[i as int]);
            return false;
        }
        i += 1;
    }
    assert(a@.map_values(|f: FileType| f@) =~= b@.map_values(|f: FileType| f@));
    true
}

/// A named rule: the presence markers identify a project root, the deletable
/// markers name its disposable build output.
#[derive(Debug)]
pub struct GarbageRecognizer {
    pub name: String,
    pub recognize: Vec<FileType>,
    pub delete: Vec<FileType>,
}

pub open spec fn markers_or_empty(v: Option<Vec<FileType>>) -> Seq<FileType> {
    match v {
        Some(v) => v@,
        None => Seq::empty(),
    }
}

impl View for GarbageRecognizer {
    /// The name, the presence markers and the deletable markers.
    type V = (Seq<char>, Seq<(bool, Seq<char>)>, Seq<(bool, Seq<char>)>);

    open spec fn view(&self) -> Self::V {
        (self.name@, self.recognize@.map_values(|f: FileType| f@), self.delete@.map_values(|f: FileType| f@))
    }
}

impl GarbageRecognizer {
    /// Structural equality: same name and the same markers in the same order.
    pub fn same_as(&self, other: &GarbageRecognizer) -> (r: bool)
        ensures
            r == (self@ == other@),
    {
        self.name.eq(&other.name) && same_markers(&self.recognize, &other.recognize) && same_markers(
            &self.delete,
            &other.delete,
        )
    }

    pub fn new(name: String, recognize: Option<Vec<FileType>>, delete: Option<Vec<FileType>>) -> (r: Self)
        ensures
            r.name == name,
            r.recognize@ == markers_or_empty(recognize),
            r.delete@ == markers_or_empty(delete),
    {
        let recognize = match recognize {
            Some(v) => v,
            None => Vec::new(),
        };
        let delete = match delete {
            Some(v) => v,
            None => Vec::new(),
        };
        Self { name, recognize, delete }
    }
}

/// Identifies a match in a result list: its position, or every match at once.
#[derive(PartialEq, Eq, Structural, Clone, Copy, Debug)]
pub enum GarbageIndex {
    Id(u32),
    All,
}

pub open spec fn is_digit(c: char) -> bool {
    '0' <= c && c <= '9'
}

/// The number that a string of decimal digits spells.
pub open spec fn digits_value(s: Seq<char>) -> int
    decreases s.len(),
{
    if s.len() == 0 {
        0
    } else {
        digits_value(s.drop_last()) * 10 + (s.last() as u32 - '0' as u32)
    }
}

pub open spec fn all_digits(s: Seq<char>) -> bool {
    forall|i: int| 0 <= i < s.len() ==> is_digit(#[trigger] s[i])
}

/// The digits of an unsigned decimal number: at least one, after an optional `+`.
pub open spec fn unsigned_digits(s: Seq<char>) -> Seq<char> {
    if s.len() > 0 && s[0] == '+' {
        s.drop_first()
    } else {
        s
    }
}

/// What an index argument denotes: `all`, or a decimal number that fits in 32 bits.
pub open spec fn parsed_index(s: Seq<char>) -> Option<GarbageIndex> {
    let d = unsigned_digits(s);
    if s == "all"@ {
        Some(GarbageIndex::All)
    } else if d.len() > 0 && all_digits(d) && digits_value(d) <= u32::MAX {
        Some(GarbageIndex::Id(digits_value(d) as u32))
    } else {
        None
    }
}

proof fn lemma_digits_value_grows(s: Seq<char>, k: int)
    requires
        all_digits(s),
        0 <= k <= s.len(),
    ensures
        0 <= digits_value(s.subrange(0, k)) <= digits_value(s),
    decreases s.len(),
{
    if k == s.len() {
        assert(s.subrange(0, k) =~= s);
        if s.len() > 0 {
            lemma_digits_value_grows(s.drop_last(), k - 1);
            assert(s.drop_last().subrange(0, k - 1) =~= s.drop_last());
        }
    } else {
        lemma_digits_value_grows(s.drop_last(), k);
        assert(s.drop_last().subrange(0, k) =~= s.subrange(0, k));
        assert(is_digit(s[s.len() - 1]));
        lemma_digits_value_grows(s.drop_last(), s.len() - 1);
        assert(s.drop_last().subrange(0, s.len() - 1) =~= s.drop_last());
    }
}

impl GarbageIndex {
    /// Reads an index argument: `all`, or a decimal number with an optional `+` that
    /// fits in 32 bits.
    pub fn parse(s: &str) -> (r: Option<GarbageIndex>)
        ensures
            r == parsed_index(s@),
    {
        proof {
            reveal_strlit("all");
        }
        let n = s.unicode_len();
        if n == 3 && s.get_char(0) == 'a' && s.get_char(1) == 'l' && s.get_char(2) == 'l' {
            assert(s@ =~= "all"@);
            return Some(GarbageIndex::All);
        }
        assert(s@ != "all"@) by {
            if s@ == "all"@ {
                assert(s@[0] == 'a' && s@[1] == 'l' && s@[2] == 'l');
            }
        }
        let start: usize = if n > 0 && s.get_char(0) == '+' {
            1
        } else {
            0
        };
        let ghost d = unsigned_digits(s@);
        assert(d =~= s@.subrange(start as int, n as int));
        if start == n {
            assert(d.len() == 0);
            return None;
        }
        let mut i: usize = start;
        while i < n
            invariant
                start <= i <= n,
                n == s@.len(),
                s@ != "all"@,
                d == unsigned_digits(s@),
                d == s@.subrange(start as int, n as int),
                forall|k: int| 0 <= k < i - start ==> is_digit(#[trigger] d[k]),
            decreases n - i,
        {
            let c = s.get_char(i);
            if !('0' <= c && c <= '9') {
                assert(!is_digit(d[i - start]));
                return None;
            }
            i += 1;
        }
        assert(all_digits(d));
        let mut value: u64 = 0;
        let mut i: usize = start;
        while i < n
            invariant
                start <= i <= n,
                n == s@.len(),
                s@ != "all"@,
                d == unsigned_digits(s@),
                d == s@.subrange(start as int, n as int),
                all_digits(d),
                value == digits_value(d.subrange(0, i - start)),
                value <= u32::MAX,
            decreases n - i,
        {
            let c = s.get_char(i);
            proof {
                assert(d.subrange(0, i - start + 1).drop_last() =~= d.subrange(0, i - start));
                assert(d.subrange(0, i - start + 1).last() == c);
                assert(is_digit(d[i - start]));
            }
            value = value * 10 + (c as u32 - '0' as u32) as u64;
            assert(value == digits_value(d.subrange(0, i - start + 1)));
            if value > u32::MAX as u64 {
                proof {
                    lemma_digits_value_grows(d, i - start + 1);
                }
                return None;
            }
            i += 1;
        }
        assert(d.subrange(0, n - start) =~= d);
        Some(GarbageIndex::Id(value as u32))
    }

    /// The argument form of the index: its number, or `all`.
    pub open spec fn text(&self) -> Seq<char> {
        match self {
            GarbageIndex::Id(n) => crate::utils::decimal(*n as nat),
            GarbageIndex::All => "all"@,
        }
    }

    pub fn to_text(&self) -> (r: String)
        ensures
            r@ == self.text(),
    {
        match self {
            GarbageIndex::Id(n) => crate::utils::decimal_string(*n as u128),
            GarbageIndex::All => String::from_str("all"),
        }
    }
}

/// One recognized project root and the subtree that may be deleted from it.
#[derive(Debug)]
pub struct GarbageRecognizerResult {
    pub index: GarbageIndex,
    pub recognizer_name: String,
    pub directory: String,
    pub size: u64,
    pub deletable: Vec<String>,
}

/// The state of a directory walk: the matches found so far, in discovery order.
/// Their deletable paths are the subtrees that the walk no longer enters.
pub struct GarbageScan {
    pub results: Vec<GarbageRecognizerResult>,
}

/// Index of the first `true`, or the length when there is none.
pub open spec fn first_true(s: Seq<bool>) -> int
    decreases s.len(),
{
    if s.len() == 0 {
        0
    } else if s[0] {
        0
    } else {
        1 + first_true(s.drop_first())
    }
}

pub proof fn lemma_first_true(s: Seq<bool>)
    ensures
        0 <= first_true(s) <= s.len(),
        first_true(s) < s.len() ==> s[first_true(s)],
        forall|k: int| 0 <= k < first_true(s) ==> !s[k],
        first_true(s) == s.len() <==> (forall|k: int| 0 <= k < s.len() ==> !s[k]),
    decreases s.len(),
{
    if s.len() > 0 && !s[0] {
        lemma_first_true(s.drop_first());
        assert forall|k: int| 0 <= k < first_true(s) implies !s[k] by {
            if k > 0 {
                assert(s[k] == s.drop_first()[k - 1]);
            }
        }
        if first_true(s) == s.len() {
            assert forall|k: int| 0 <= k < s.len() implies !s[k] by {
                if k > 0 {
                    assert(s[k] == s.drop_first()[k - 1]);
                }
            }
        }
    }
}

impl GarbageScan {
    /// The deletable path claimed by the `i`-th match.
    pub open spec fn claimed(&self, i: int) -> Seq<char> {
        self.results@[i].deletable@[0]@
    }

    pub open spec fn wf(&self) -> bool {
        &&& self.results@.len() <= u32::MAX
        &&& forall|i: int|
            0 <= i < self.results@.len() ==> {
                &&& (#[trigger] self.results@[i]).index == GarbageIndex::Id(i as u32)
                &&& self.results@[i].deletable@.len() == 1
            }
        &&& forall|i: int, j: int|
            0 <= i < self.results@.len() && 0 <= j < self.results@.len() && i != j ==> !paths_overlap(
                #[trigger] self.claimed(i),
                #[trigger] self.claimed(j),
            )
    }

    /// `p` overlaps a subtree that an earlier match claimed.
    pub open spec fn overlaps_claimed_spec(&self, p: Seq<char>) -> bool {
        exists|i: int| 0 <= i < self.results@.len() && paths_overlap(#[trigger] self.claimed(i), p)
    }

    /// `p` lies inside a subtree that an earlier match claimed.
    pub open spec fn is_pruned_spec(&self, p: Seq<char>) -> bool {
        exists|i: int| 0 <= i < self.results@.len() && path_within(#[trigger] self.claimed(i), p)
    }

    /// The deletable path that a visit of `dir` with recognizer `rec` claims, given which
    /// of its presence markers and which of its deletable markers exist under `dir`.
    pub open spec fn selection(
        &self,
        dir: Seq<char>,
        rec: GarbageRecognizer,
        presence: Seq<bool>,
        exists: Seq<bool>,
    ) -> Option<Seq<char>> {
        let k = first_true(exists);
        if first_true(presence) < presence.len() && k < exists.len() {
            let p = joined(dir, rec.delete@[k].marker());
            if self.overlaps_claimed_spec(p) {
                None
            } else {
                Some(p)
            }
        } else {
            None
        }
    }

    pub fn new() -> (r: Self)
        ensures
            r.wf(),
            r.results@.len() == 0,
    {
        GarbageScan { results: Vec::new() }
    }

    pub fn overlaps_claimed(&self, p: &str) -> (r: bool)
        requires
            self.wf(),
        ensures
            r == self.overlaps_claimed_spec(p@),
    {
        let mut i: usize = 0;
        while i < self.results.len()
            invariant
                self.wf(),
                i <= self.results@.len(),
                forall|k: int| 0 <= k < i ==> !paths_overlap(#[trigger] self.claimed(k), p@),
            decreases self.results@.len() - i,
        {
            assert(self.results@[i as int].deletable@.len() == 1);
            if do_paths_overlap(self.results[i].deletable[0].as_str(), p) {
                assert(paths_overlap(self.claimed(i as int), p@));
                return true;
            }
            i += 1;
        }
        false
    }

    /// Whether the walk skips `dir`: it lies inside an already claimed subtree.
    pub fn is_pruned(&self, dir: &str) -> (r: bool)
        requires
            self.wf(),
        ensures
            r == self.is_pruned_spec(dir@),
    {
        let mut i: usize = 0;
        while i < self.results.len()
            invariant
                self.wf(),
                i <= self.results@.len(),
                forall|k: int| 0 <= k < i ==> !path_within(#[trigger] self.claimed(k), dir@),
            decreases self.results@.len() - i,
        {
            assert(self.results@[i as int].deletable@.len() == 1);
            if is_path_within(self.results[i].deletable[0].as_str(), dir) {
                assert(path_within(self.claimed(i as int), dir@));
                return true;
            }
            i += 1;
        }
        false
    }

    /// Decides whether `rec` matches `dir`. `presence[k]` tells whether the `k`-th presence
    /// marker exists under `dir`, `exists[k]` whether the `k`-th deletable marker does.
    /// The first existing deletable marker decides the path, which must not overlap a
    /// subtree claimed before.
    pub fn select_deletable(
        &self,
        dir: &str,
        rec: &GarbageRecognizer,
        presence: &Vec<bool>,
        exists: &Vec<bool>,
    ) -> (r: Option<String>)
        requires
            self.wf(),
            exists@.len() == rec.delete@.len(),
        ensures
            r matches Some(p) ==> self.selection(dir@, *rec, presence@, exists@) == Some(p@),
            r is None ==> self.selection(dir@, *rec, presence@, exists@) is None,
    {
        proof {
            lemma_first_true(presence@);
            lemma_first_true(exists@);
        }
        let mut found = false;
        let mut i: usize = 0;
        while i < presence.len()
            invariant
                i <= presence@.len(),
                found == (exists|k: int| 0 <= k < i && presence@[k]),
            decreases presence@.len() - i,
        {
            if presence[i] {
                found = true;
            }
            i += 1;
        }
        if !found {
            return None;
        }
        let mut k: usize = 0;
        while k < exists.len() && !exists[k]
            invariant
                k <= exists@.len(),
                forall|j: int| 0 <= j < k ==> !exists@[j],
            decreases exists@.len() - k,
        {
            k += 1;
        }
        if k == exists.len() {
            return None;
        }
        assert(k == first_true(exists@));
        let p = join_path(dir, rec.delete[k].path().as_str());
        if self.overlaps_claimed(p.as_str()) {
            None
        } else {
            Some(p)
        }
    }

    /// Appends a match that claims `deletable`, with the next index in discovery order.
    pub fn record_match(&mut self, recognizer_name: &String, directory: &str, deletable: String, size: u64)
        requires
            old(self).wf(),
            old(self).results@.len() < u32::MAX,
            !old(self).overlaps_claimed_spec(deletable@),
        ensures
            final(self).wf(),
            final(self).results@.len() == old(self).results@.len() + 1,
            forall|i: int| 0 <= i < old(self).results@.len() ==> final(self).results@[i] == old(self).results@[i],
            total_size(final(self).results@) == total_size(old(self).results@) + size,
            ({
                let m = final(self).results@.last();
                &&& m.index == GarbageIndex::Id(old(self).results@.len() as u32)
                &&& m.recognizer_name@ == recognizer_name@
                &&& m.directory@ == directory@
                &&& m.size == size
                &&& m.deletable@.len() == 1
                &&& m.deletable@[0] == deletable
            }),
    {
        let index = GarbageIndex::Id(self.results.len() as u32);
        let mut deletable_paths = Vec::new();
        deletable_paths.push(deletable);
        let m = GarbageRecognizerResult {
            index,
            recognizer_name: recognizer_name.clone(),
            directory: String::from_str(directory),
            size,
            deletable: deletable_paths,
        };
        let ghost prev = *self;
        self.results.push(m);
        proof {
            assert(self.results@.drop_last() =~= prev.results@);
            let n = prev.results@.len() as int;
            assert forall|i: int, j: int|
                0 <= i < self.results@.len() && 0 <= j < self.results@.len() && i != j implies !paths_overlap(
                #[trigger] self.claimed(i),
                #[trigger] self.claimed(j),
            ) by {
                if i < n && j < n {
                    assert(self.claimed(i) == prev.claimed(i));
                    assert(self.claimed(j) == prev.claimed(j));
                } else if i == n {
                    assert(self.claimed(j) == prev.claimed(j));
                    assert(!paths_overlap(prev.claimed(j), deletable@));
                } else {
                    assert(self.claimed(i) == prev.claimed(i));
                    assert(!paths_overlap(prev.claimed(i), deletable@));
                }
            }
        }
    }

    pub fn into_results(self) -> (r: Vec<GarbageRecognizerResult>)
        ensures
            r == self.results,
    {
        self.results
    }
}

/// Within one scan, the deletable subtrees of two different matches never overlap.
pub proof fn lemma_deletables_disjoint(scan: GarbageScan, i: int, a: int, j: int, b: int)
    requires
        scan.wf(),
        0 <= i < scan.results@.len(),
        0 <= j < scan.results@.len(),
        0 <= a < scan.results@[i].deletable@.len(),
        0 <= b < scan.results@[j].deletable@.len(),
        i != j || a != b,
    ensures
        !paths_overlap(scan.results@[i].deletable@[a]@, scan.results@[j].deletable@[b]@),
{
    assert(scan.results@[i].deletable@.len() == 1);
    assert(scan.results@[j].deletable@.len() == 1);
    assert(scan.claimed(i) == scan.results@[i].deletable@[a]@);
    assert(scan.claimed(j) == scan.results@[j].deletable@[b]@);
}

/// What a deletion attempt on one path came to.
#[derive(Debug)]
pub enum DeletionOutcome {
    /// The path was removed.
    Removed,
    /// Probing or removing the path failed, with the cause.
    Failed(String),
    /// The path is neither a directory nor a regular file.
    NotRemovable,
}

/// What a metadata probe reported a path to be.
#[derive(PartialEq, Eq, Structural, Clone, Copy, Debug)]
pub enum PathKind {
    Directory,
    File,
    Other,
}

/// How a path is removed.
#[derive(PartialEq, Eq, Structural, Clone, Copy, Debug)]
pub enum Removal {
    Recursive,
    SingleFile,
}

/// A directory is removed with its contents, a regular file on its own; anything else is
/// not removed at all.
pub fn removal_for(kind: PathKind) -> (r: Option<Removal>)
    ensures
        kind == PathKind::Directory ==> r == Some(Removal::Recursive),
        kind == PathKind::File ==> r == Some(Removal::SingleFile),
        kind == PathKind::Other ==> r is None,
{
    match kind {
        PathKind::Directory => Some(Removal::Recursive),
        PathKind::File => Some(Removal::SingleFile),
        PathKind::Other => None,
    }
}

/// The deletion report of the matches of one recognizer.
#[derive(Debug)]
pub struct DeleteOperationSelection {
    pub name: String,
    pub result: Vec<DeleteOperationResult>,
}

impl DeleteOperationSelection {
    pub fn new(name: String, result: Vec<DeleteOperationResult>) -> (r: Self)
        ensures
            r.name == name,
            r.result == result,
    {
        Self { name, result }
    }
}

/// The outcome of deleting one path.
#[derive(Debug)]
pub struct DeleteOperationResult {
    pub path: String,
    pub success: bool,
    pub error_message: Option<String>,
}

impl DeleteOperationResult {
    pub fn success(path: String) -> (r: Self)
        ensures
            r.path == path,
            r.success,
            r.error_message is None,
    {
        Self { path, success: true, error_message: None }
    }

    pub fn failure(path: String, error_message: Option<String>) -> (r: Self)
        ensures
            r.path == path,
            !r.success,
            r.error_message == error_message,
    {
        Self { path, success: false, error_message }
    }
}

/// The report entry for `path` after `outcome`.
pub open spec fn reported(path: String, outcome: DeletionOutcome) -> DeleteOperationResult {
    match outcome {
        DeletionOutcome::Removed => DeleteOperationResult { path, success: true, error_message: None },
        DeletionOutcome::Failed(m) => DeleteOperationResult { path, success: false, error_message: Some(m) },
        DeletionOutcome::NotRemovable => DeleteOperationResult { path, success: false, error_message: None },
    }
}

/// The report entries of one match, one per deletable path, in order.
pub open spec fn reported_all(g: GarbageRecognizerResult, outcomes: Seq<DeletionOutcome>) -> Seq<
    DeleteOperationResult,
> {
    Seq::new(outcomes.len(), |k: int| reported(g.deletable@[k], outcomes[k]))
}

pub fn result_of_deletion(path: String, outcome: DeletionOutcome) -> (r: DeleteOperationResult)
    ensures
        r == reported(path, outcome),
{
    match outcome {
        DeletionOutcome::Removed => DeleteOperationResult::success(path),
        DeletionOutcome::Failed(m) => DeleteOperationResult::failure(path, Some(m)),
        DeletionOutcome::NotRemovable => DeleteOperationResult::failure(path, None),
    }
}

/// Reports on the deletion of every deletable path of `result`; `outcomes[k]` is what
/// became of its `k`-th path.
pub fn delete_deletable_from_garbage_recognizer_result(
    result: &GarbageRecognizerResult,
    outcomes: Vec<DeletionOutcome>,
) -> (r: DeleteOperationSelection)
    requires
        outcomes@.len() == result.deletable@.len(),
    ensures
        r.name == result.recognizer_name,
        r.result@ == reported_all(*result, outcomes@),
{
    let ghost all = outcomes@;
    let mut outcomes = outcomes;
    let mut results: Vec<DeleteOperationResult> = Vec::new();
    let mut k: usize = 0;
    while k < result.deletable.len()
        invariant
            all.len() == result.deletable@.len(),
            k <= all.len(),
            outcomes@ == all.subrange(k as int, all.len() as int),
            results@ == reported_all(*result, all.subrange(0, k as int)),
        decreases all.len() - k,
    {
        let o = outcomes.remove(0);
        let entry = result_of_deletion(result.deletable[k].clone(), o);
        results.push(entry);
        assert(outcomes@ =~= all.subrange(k + 1, all.len() as int));
        k += 1;
        assert(results@ =~= reported_all(*result, all.subrange(0, k as int)));
    }
    assert(all.subrange(0, all.len() as int) =~= all);
    DeleteOperationSelection::new(result.recognizer_name.clone(), results)
}

/// Builds the deletion report of a batch. `outcomes[i][k]` is what became of the `k`-th
/// deletable path of `garbage[i]`. A failed path never stops the batch: every match and
/// every path has its entry, a success exactly where the path was removed.
pub fn clean_garbage_from_vec(
    garbage: Vec<GarbageRecognizerResult>,
    outcomes: Vec<Vec<DeletionOutcome>>,
) -> (r: Vec<DeleteOperationSelection>)
    requires
        outcomes@.len() == garbage@.len(),
        forall|i: int| 0 <= i < garbage@.len() ==> (#[trigger] outcomes@[i])@.len() == garbage@[i].deletable@.len(),
    ensures
        r@.len() == garbage@.len(),
        forall|i: int|
            0 <= i < garbage@.len() ==> {
                &&& (#[trigger] r@[i]).name == garbage@[i].recognizer_name
                &&& r@[i].result@ == reported_all(garbage@[i], outcomes@[i]@)
            },
{
    let ghost all = outcomes@;
    let mut outcomes = outcomes;
    let mut report: Vec<DeleteOperationSelection> = Vec::new();
    let mut i: usize = 0;
    while i < garbage.len()
        invariant
            all.len() == garbage@.len(),
            forall|j: int| 0 <= j < garbage@.len() ==> (#[trigger] all[j])@.len() == garbage@[j].deletable@.len(),
            i <= garbage@.len(),
            outcomes@ == all.subrange(i as int, all.len() as int),
            report@.len() == i,
            forall|j: int|
                0 <= j < i ==> {
                    &&& (#[trigger] report@[j]).name == garbage@[j].recognizer_name
                    &&& report@[j].result@ == reported_all(garbage@[j], all[j]@)
                },
        decreases garbage@.len() - i,
    {
        let o = outcomes.remove(0);
        assert(o == all[i as int]);
        let s = delete_deletable_from_garbage_recognizer_result(&garbage[i], o);
        report.push(s);
        assert(outcomes@ =~= all.subrange(i + 1, all.len() as int));
        i += 1;
    }
    report
}

/// The sum of the sizes of the matches.
pub open spec fn total_size(s: Seq<GarbageRecognizerResult>) -> int
    decreases s.len(),
{
    if s.len() == 0 {
        0
    } else {
        total_size(s.drop_last()) + s.last().size
    }
}

proof fn lemma_total_size_prefix(s: Seq<GarbageRecognizerResult>, i: int)
    requires
        0 <= i <= s.len(),
    ensures
        0 <= total_size(s.subrange(0, i)) <= total_size(s),
    decreases s.len(),
{
    if s.len() > 0 {
        if i == s.len() {
            assert(s.subrange(0, i) =~= s);
            lemma_total_size_prefix(s.drop_last(), i - 1);
            assert(s.drop_last().subrange(0, i - 1) =~= s.subrange(0, i).drop_last());
        } else {
            lemma_total_size_prefix(s.drop_last(), i);
            assert(s.drop_last().subrange(0, i) =~= s.subrange(0, i));
        }
    }
}

/// The total size of all matches, in bytes.
pub fn compute_deletable_size_from_garbage_results(results: &Vec<GarbageRecognizerResult>) -> (r: u64)
    requires
        total_size(results@) <= u64::MAX,
    ensures
        r == total_size(results@),
{
    let mut sum: u64 = 0;
    let mut i: usize = 0;
    while i < results.len()
        invariant
            i <= results@.len(),
            total_size(results@) <= u64::MAX,
            sum == total_size(results@.subrange(0, i as int)),
        decreases results@.len() - i,
    {
        proof {
            lemma_total_size_prefix(results@, i + 1);
            assert(results@.subrange(0, i + 1).drop_last() =~= results@.subrange(0, i as int));
        }
        sum = sum + results[i].size;
        i += 1;
    }
    assert(results@.subrange(0, i as int) =~= results@);
    sum
}

/// Whether `id` occurs in `ids`.
pub fn contains_index(ids: &Vec<GarbageIndex>, id: GarbageIndex) -> (r: bool)
    ensures
        r == ids@.contains(id),
{
    let mut i: usize = 0;
    while i < ids.len()
        invariant
            i <= ids@.len(),
            forall|k: int| 0 <= k < i ==> ids@[k] != id,
        decreases ids@.len() - i,
    {
        if ids[i] == id {
            assert(ids@[i as int] == id);
            return true;
        }
        i += 1;
    }
    false
}

/// The matches of `s` whose index is one of `ids`, in their order.
pub open spec fn selected_by(s: Seq<GarbageRecognizerResult>, ids: Seq<GarbageIndex>) -> Seq<
    GarbageRecognizerResult,
>
    decreases s.len(),
{
    if s.len() == 0 {
        s
    } else if ids.contains(s.last().index) {
        selected_by(s.drop_last(), ids).push(s.last())
    } else {
        selected_by(s.drop_last(), ids)
    }
}

/// Keeps the matches that `ids` selects: all of them where `ids` holds the `All` sentinel,
/// else those whose index is listed, in their order.
pub fn filter_garbage_from_ids(garbage: Vec<GarbageRecognizerResult>, ids: &Vec<GarbageIndex>) -> (r: Vec<
    GarbageRecognizerResult,
>)
    ensures
        ids@.contains(GarbageIndex::All) ==> r@ == garbage@,
        !ids@.contains(GarbageIndex::All) ==> r@ == selected_by(garbage@, ids@),
{
    if contains_index(ids, GarbageIndex::All) {
        return garbage;
    }
    let ghost all = garbage@;
    let mut garbage = garbage;
    let mut kept: Vec<GarbageRecognizerResult> = Vec::new();
    let mut i: usize = 0;
    let n = garbage.len();
    while i < n
        invariant
            n == all.len(),
            i <= n,
            garbage@ == all.subrange(i as int, n as int),
            kept@ == selected_by(all.subrange(0, i as int), ids@),
        decreases n - i,
    {
        let g = garbage.remove(0);
        assert(g == all[i as int]);
        assert(all.subrange(0, i + 1).drop_last() =~= all.subrange(0, i as int));
        assert(all.subrange(0, i + 1).last() == g);
        if contains_index(ids, g.index) {
            kept.push(g);
        }
        assert(garbage@ =~= all.subrange(i + 1, n as int));
        i += 1;
    }
    assert(all.subrange(0, n as int) =~= all);
    kept
}

/// Whether `id` selects something in `garbage`: `All` always does, an integer where a
/// match carries it.
pub open spec fn is_known_index(garbage: Seq<GarbageRecognizerResult>, id: GarbageIndex) -> bool {
    id == GarbageIndex::All || exists|i: int| 0 <= i < garbage.len() && (#[trigger] garbage[i]).index == id
}

pub fn is_known(garbage: &Vec<GarbageRecognizerResult>, id: GarbageIndex) -> (r: bool)
    ensures
        r == is_known_index(garbage@, id),
{
    if id == GarbageIndex::All {
        return true;
    }
    let mut i: usize = 0;
    while i < garbage.len()
        invariant
            i <= garbage@.len(),
            forall|k: int| 0 <= k < i ==> (#[trigger] garbage@[k]).index != id,
        decreases garbage@.len() - i,
    {
        if garbage[i].index == id {
            assert(garbage@[i as int].index == id);
            return true;
        }
        i += 1;
    }
    false
}

/// The first of `ids` that selects nothing in `garbage`, if any: a clean request that
/// names it refers to a match that the cached list does not hold.
pub fn first_unknown_index(garbage: &Vec<GarbageRecognizerResult>, ids: &Vec<GarbageIndex>) -> (r: Option<
    GarbageIndex,
>)
    ensures
        r is None <==> forall|k: int| 0 <= k < ids@.len() ==> is_known_index(garbage@, #[trigger] ids@[k]),
        r matches Some(x) ==> exists|k: int|
            0 <= k < ids@.len() && ids@[k] == x && !is_known_index(garbage@, x) && forall|j: int|
                0 <= j < k ==> is_known_index(garbage@, #[trigger] ids@[j]),
{
    let mut k: usize = 0;
    while k < ids.len()
        invariant
            k <= ids@.len(),
            forall|j: int| 0 <= j < k ==> is_known_index(garbage@, #[trigger] ids@[j]),
        decreases ids@.len() - k,
    {
        if !is_known(garbage, ids[k]) {
            assert(ids@[k as int] == ids[k as int]);
            return Some(ids[k]);
        }
        k += 1;
    }
    None
}

/// Selecting by a single integer index keeps exactly the matches that carry it.
pub proof fn lemma_select_single_index(s: Seq<GarbageRecognizerResult>, n: u32)
    ensures
        forall|g: GarbageRecognizerResult| #[trigger]
            selected_by(s, seq![GarbageIndex::Id(n)]).contains(g) <==> (s.contains(g) && g.index
                == GarbageIndex::Id(n)),
    decreases s.len(),
{
    let ids = seq![GarbageIndex::Id(n)];
    assert forall|x: GarbageIndex| ids.contains(x) <==> x == GarbageIndex::Id(n) by {
        if x == GarbageIndex::Id(n) {
            assert(ids[0] == x);
        }
    }
    if s.len() > 0 {
        lemma_select_single_index(s.drop_last(), n);
        let prev = selected_by(s.drop_last(), ids);
        assert forall|g: GarbageRecognizerResult| #[trigger]
            selected_by(s, ids).contains(g) <==> (s.contains(g) && g.index == GarbageIndex::Id(n)) by {
            assert(s.contains(g) <==> (s.drop_last().contains(g) || g == s.last())) by {
                if s.contains(g) {
                    let k = choose|k: int| 0 <= k < s.len() && s[k] == g;
                    if k < s.len() - 1 {
                        assert(s.drop_last()[k] == g);
                    }
                }
                if s.drop_last().contains(g) {
                    let k = choose|k: int| 0 <= k < s.drop_last().len() && s.drop_last()[k] == g;
                    assert(s[k] == g);
                }
                if g == s.last() {
                    assert(s[s.len() - 1] == g);
                }
            }
            if ids.contains(s.last().index) {
                assert(selected_by(s, ids) == prev.push(s.last()));
                assert(prev.push(s.last()).contains(g) <==> (prev.contains(g) || g == s.last())) by {
                    if prev.push(s.last()).contains(g) {
                        let k = choose|k: int| 0 <= k < prev.len() + 1 && prev.push(s.last())[k] == g;
                        if k < prev.len() {
                            assert(prev[k] == g);
                        }
                    }
                    if prev.contains(g) {
                        let k = choose|k: int| 0 <= k < prev.len() && prev[k] == g;
                        assert(prev.push(s.last())[k] == g);
                    }
                    if g == s.last() {
                        assert(prev.push(s.last())[prev.len() as int] == g);
                    }
                }
            } else {
                assert(selected_by(s, ids) == prev);
            }
        }
    }
}

/// In a deletion report, a path's entry is a failure exactly when the path was not
/// removed, and a failure of one path leaves the entries of all others as they are.
pub proof fn lemma_report_marks_each_path(
    garbage: Seq<GarbageRecognizerResult>,
    outcomes: Seq<Seq<DeletionOutcome>>,
    i: int,
    k: int,
)
    requires
        outcomes.len() == garbage.len(),
        0 <= i < garbage.len(),
        0 <= k < outcomes[i].len(),
        outcomes[i].len() == garbage[i].deletable@.len(),
    ensures
        reported_all(garbage[i], outcomes[i])[k].path == garbage[i].deletable@[k],
        reported_all(garbage[i], outcomes[i])[k].success <==> outcomes[i][k] is Removed,
        outcomes[i][k] matches DeletionOutcome::Failed(m) ==> reported_all(garbage[i], outcomes[i])[k].error_message
            == Some(m),
{
}

} // verus!
