use vstd::prelude::*;

use crate::garbage::GarbageRecognizer;
use crate::recognizer::available_recognizer;

verus! {

/// The view of a recognizer: its name, presence markers and deletable markers.
pub type RecognizerView = (Seq<char>, Seq<(bool, Seq<char>)>, Seq<(bool, Seq<char>)>);

/// The recognizers a walk evaluates, in registration order, without repetition.
pub struct AppState {
    pub garbage_recognizer: Vec<GarbageRecognizer>,
}

/// `s` after registering `r`: unchanged where an equal recognizer is already there.
pub open spec fn register_one(s: Seq<RecognizerView>, r: RecognizerView) -> Seq<RecognizerView> {
    if s.contains(r) {
        s
    } else {
        s.push(r)
    }
}

/// `s` after registering each of `items` in order.
pub open spec fn register_each(s: Seq<RecognizerView>, items: Seq<RecognizerView>) -> Seq<RecognizerView>
    decreases items.len(),
{
    if items.len() == 0 {
        s
    } else {
        register_one(register_each(s, items.drop_last()), items.last())
    }
}

pub open spec fn views(s: Seq<GarbageRecognizer>) -> Seq<RecognizerView> {
    s.map_values(|g: GarbageRecognizer| g@)
}

impl View for AppState {
    type V = Seq<RecognizerView>;

    open spec fn view(&self) -> Seq<RecognizerView> {
        views(self.garbage_recognizer@)
    }
}

impl AppState {
    pub open spec fn wf(&self) -> bool {
        forall|i: int, j: int| 0 <= i < j < self@.len() ==> self@[i] != self@[j]
    }

    pub fn new() -> (r: Self)
        ensures
            r.wf(),
            r@.len() == 0,
    {
        AppState { garbage_recognizer: Vec::new() }
    }

    /// Adds a recognizer unless an equal one is registered already.
    pub fn register_garbage_recognizer(&mut self, recognizer: GarbageRecognizer)
        requires
            old(self).wf(),
        ensures
            final(self).wf(),
            final(self)@ == register_one(old(self)@, recognizer@),
    {
        let mut i: usize = 0;
        while i < self.garbage_recognizer.len()
            invariant
                i <= self@.len(),
                self.wf(),
                self@.len() == self.garbage_recognizer@.len(),
                forall|k: int| 0 <= k < i ==> self@[k] != recognizer@,
            decreases self.garbage_recognizer@.len() - i,
        {
            if self.garbage_recognizer[i].same_as(&recognizer) {
                assert(self@[i as int] == recognizer@);
                return;
            }
            i += 1;
        }
        let ghost before = self@;
        self.garbage_recognizer.push(recognizer);
        assert(self@ =~= before.push(recognizer@));
    }
}

/// Names the result of std's `str::to_lowercase`.
pub uninterp spec fn lowercase_of(s: Seq<char>) -> Seq<char>;

/// Relies on std's `str::to_lowercase`: the lower-case mapping of every character,
/// which depends on the characters alone.
#[verifier::external_body]
fn to_lowercase(s: &str) -> (r: String)
    ensures
        r@ == lowercase_of(s@),
{
    s.to_lowercase()
}

pub open spec fn string_views(v: Seq<String>) -> Seq<Seq<char>> {
    v.map_values(|s: String| s@)
}

/// The lower-case forms of `v`.
pub open spec fn lowered_views(v: Seq<String>) -> Seq<Seq<char>> {
    v.map_values(|s: String| lowercase_of(s@))
}

/// The recognizers of `s` whose lower-case name is (`wanted`) or is not (`!wanted`)
/// among the lower-case `names`, in order.
pub open spec fn kept_by_name(s: Seq<RecognizerView>, names: Seq<Seq<char>>, wanted: bool) -> Seq<RecognizerView>
    decreases s.len(),
{
    if s.len() == 0 {
        s
    } else if names.contains(lowercase_of(s.last().0)) == wanted {
        kept_by_name(s.drop_last(), names, wanted).push(s.last())
    } else {
        kept_by_name(s.drop_last(), names, wanted)
    }
}

pub fn contains_string(names: &Vec<String>, s: &String) -> (r: bool)
    ensures
        r == string_views(names@).contains(s@),
{
    let mut i: usize = 0;
    while i < names.len()
        invariant
            i <= names@.len(),
            forall|k: int| 0 <= k < i ==> names@[k]@ != s@,
        decreases names@.len() - i,
    {
        if names[i].eq(s) {
            assert(string_views(names@)[i as int] == s@);
            return true;
        }
        i += 1;
    }
    false
}

/// The lower-case forms of `names`, in order.
pub fn lowercase_all(names: &Vec<String>) -> (r: Vec<String>)
    ensures
        string_views(r@) == lowered_views(names@),
{
    let mut r: Vec<String> = Vec::new();
    let mut i: usize = 0;
    while i < names.len()
        invariant
            i <= names@.len(),
            string_views(r@) == lowered_views(names@).subrange(0, i as int),
        decreases names@.len() - i,
    {
        let l = to_lowercase(names[i].as_str());
        let ghost prev = r@;
        r.push(l);
        assert(string_views(r@) =~= string_views(prev).push(l@));
        i += 1;
        assert(string_views(r@) =~= lowered_views(names@).subrange(0, i as int));
    }
    assert(lowered_views(names@).subrange(0, i as int) =~= lowered_views(names@));
    r
}

/// Keeps the recognizers whose lower-case name is (`wanted`) or is not (`!wanted`) the
/// lower-case form of one of `names`.
fn retain_by_name(recognizer_vec: &mut Vec<GarbageRecognizer>, names: &Vec<String>, wanted: bool)
    ensures
        views(final(recognizer_vec)@) == kept_by_name(
            views(old(recognizer_vec)@),
            lowered_views(names@),
            wanted,
        ),
{
    let ghost all = views(recognizer_vec@);
    let ghost names_v = lowered_views(names@);
    let lowered = lowercase_all(names);
    let mut kept: Vec<GarbageRecognizer> = Vec::new();
    let n = recognizer_vec.len();
    let mut i: usize = 0;
    while i < n
        invariant
            n == all.len(),
            names_v == lowered_views(names@),
            string_views(lowered@) == names_v,
            i <= n,
            recognizer_vec@.len() == n - i,
            views(recognizer_vec@) == all.subrange(i as int, n as int),
            views(kept@) == kept_by_name(all.subrange(0, i as int), names_v, wanted),
        decreases n - i,
    {
        let ghost rest = recognizer_vec@;
        let g = recognizer_vec.remove(0);
        assert(g@ == views(rest)[0]);
        assert forall|k: int| 0 <= k < recognizer_vec@.len() implies views(recognizer_vec@)[k] == all.subrange(i + 1, n as int)[k] by {
            assert(recognizer_vec@[k] == rest[k + 1]);
            assert(views(rest)[k + 1] == all.subrange(i as int, n as int)[k + 1]);
        }
        assert(views(recognizer_vec@) =~= all.subrange(i + 1, n as int));
        assert(all.subrange(0, i + 1).drop_last() =~= all.subrange(0, i as int));
        assert(all.subrange(0, i + 1).last() == g@);
        assert(g@.0 == g.name@);
        let lower = to_lowercase(g.name.as_str());
        let ghost before = kept@;
        let found = contains_string(&lowered, &lower);
        assert(lower@ == lowercase_of(g@.0));
        assert(found == names_v.contains(lower@));
        let keep = found == wanted;
        assert(keep == (names_v.contains(lowercase_of(all.subrange(0, i + 1).last().0)) == wanted));
        if keep {
            kept.push(g);
            assert(views(kept@) =~= views(before).push(all.subrange(0, i + 1).last()));
            assert(kept_by_name(all.subrange(0, i + 1), names_v, wanted) == kept_by_name(
                all.subrange(0, i as int),
                names_v,
                wanted,
            ).push(all.subrange(0, i + 1).last()));
        } else {
            assert(kept_by_name(all.subrange(0, i + 1), names_v, wanted) == kept_by_name(
                all.subrange(0, i as int),
                names_v,
                wanted,
            ));
        }
        i += 1;
    }
    assert(all.subrange(0, n as int) =~= all);
    *recognizer_vec = kept;
}

/// Keeps only the recognizers whose name is listed, in any case, where a list is given.
pub fn include_recognizer(recognizer_vec: &mut Vec<GarbageRecognizer>, only: &Option<Vec<String>>)
    ensures
        views(final(recognizer_vec)@) == (match only {
            Some(names) => kept_by_name(
                views(old(recognizer_vec)@),
                lowered_views(names@),
                true,
            ),
            None => views(old(recognizer_vec)@),
        }),
{
    if let Some(names) = only {
        retain_by_name(recognizer_vec, names, true);
    }
}

/// Drops the recognizers whose name is listed, in any case, where a list is given.
pub fn exclude_recognizer(recognizer_vec: &mut Vec<GarbageRecognizer>, except: &Option<Vec<String>>)
    ensures
        views(final(recognizer_vec)@) == (match except {
            Some(names) => kept_by_name(
                views(old(recognizer_vec)@),
                lowered_views(names@),
                false,
            ),
            None => views(old(recognizer_vec)@),
        }),
{
    if let Some(names) = except {
        retain_by_name(recognizer_vec, names, false);
    }
}

/// The built-in recognizers after the inclusion and the exclusion filter.
pub open spec fn selected_recognizers(
    only: Option<Vec<String>>,
    except: Option<Vec<String>>,
) -> Seq<RecognizerView> {
    let all = crate::recognizer::builtin_recognizers();
    let included = match only {
        Some(names) => kept_by_name(all, lowered_views(names@), true),
        None => all,
    };
    match except {
        Some(names) => kept_by_name(included, lowered_views(names@), false),
        None => included,
    }
}

/// Registers the built-in recognizers that pass the name filters.
pub fn register_garbage_recognizer(
    state: &mut AppState,
    only: &Option<Vec<String>>,
    except: &Option<Vec<String>>,
)
    requires
        old(state).wf(),
    ensures
        final(state).wf(),
        final(state)@ == register_each(old(state)@, selected_recognizers(*only, *except)),
{
    let mut recognizer = available_recognizer();
    include_recognizer(&mut recognizer, only);
    exclude_recognizer(&mut recognizer, except);
    let ghost items = views(recognizer@);
    let ghost start = state@;
    let n = recognizer.len();
    let mut i: usize = 0;
    while i < n
        invariant
            n == items.len(),
            i <= n,
            state.wf(),
            recognizer@.len() == n - i,
            views(recognizer@) == items.subrange(i as int, n as int),
            state@ == register_each(start, items.subrange(0, i as int)),
        decreases n - i,
    {
        let ghost rest = recognizer@;
        let g = recognizer.remove(0);
        assert(g@ == views(rest)[0]);
        assert forall|k: int| 0 <= k < recognizer@.len() implies views(recognizer@)[k] == items.subrange(i + 1, n as int)[k] by {
            assert(recognizer@[k] == rest[k + 1]);
            assert(views(rest)[k + 1] == items.subrange(i as int, n as int)[k + 1]);
        }
        assert(views(recognizer@) =~= items.subrange(i + 1, n as int));
        assert(items.subrange(0, i + 1).drop_last() =~= items.subrange(0, i as int));
        assert(items.subrange(0, i + 1).last() == g@);
        state.register_garbage_recognizer(g);
        i += 1;
    }
    assert(items.subrange(0, n as int) =~= items);
}

} // verus!
