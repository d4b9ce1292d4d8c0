//! Which saved LLM credentials are switched on.
//!
//! The core keeps a single active credential for the conversation; the
//! settings page lets several credentials be enabled at once. The enabled set
//! is an ordered list of credential ids, modelled as a `Seq<Seq<char>>`.
use vstd::prelude::*;
use crate::text::{str_eq, trim_str, trim, is_blank};

verus! {

broadcast use vstd::seq_lib::group_seq_properties;

/// A counter that the settings page bumps after the enabled credentials
/// change, so that the chat reloads its list of models.
pub struct LlmModelsRefresh(pub u32);

/// Asks the chat to reload its models. The counter must not be at its
/// largest value, where the increment would overflow.
pub fn bump_llm_models_refresh(tick: &mut LlmModelsRefresh)
    requires
        old(tick).0 < u32::MAX,
    ensures
        final(tick).0 == old(tick).0 + 1,
{
    tick.0 = tick.0 + 1;
}

// ---------------------------------------------------------------------------
// Model
// ---------------------------------------------------------------------------

/// The ids held by a list of strings.
pub open spec fn ids(v: Seq<String>) -> Seq<Seq<char>> {
    v.map_values(|s: String| s@)
}

/// Membership in `known`.
pub open spec fn is_known(known: Seq<Seq<char>>) -> spec_fn(Seq<char>) -> bool {
    |x: Seq<char>| known.contains(x)
}

/// Every id but `id`.
pub open spec fn is_not(id: Seq<char>) -> spec_fn(Seq<char>) -> bool {
    |x: Seq<char>| x != id
}

/// The ids of `xs` that are still in `known`, in their order.
pub open spec fn keep_known(xs: Seq<Seq<char>>, known: Seq<Seq<char>>) -> Seq<Seq<char>> {
    xs.filter(is_known(known))
}

/// The enabled set as first shown: the saved one, restricted to the known
/// credentials, or, where nothing was ever saved, just the (trimmed) active
/// credential when it is known.
pub open spec fn overlay(
    saved: Option<Seq<Seq<char>>>,
    known: Seq<Seq<char>>,
    active: Seq<char>,
) -> Seq<Seq<char>> {
    match saved {
        Some(s) => keep_known(s, known),
        None => {
            let a = trim(active);
            if a.len() > 0 && known.contains(a) {
                seq![a]
            } else {
                Seq::empty()
            }
        },
    }
}

/// The enabled set after switching `id` on (it moves to the end) or off.
pub open spec fn toggled(current: Seq<Seq<char>>, id: Seq<char>, on: bool) -> Seq<Seq<char>> {
    let rest = current.filter(is_not(id));
    if on {
        rest.push(id)
    } else {
        rest
    }
}

/// `base` followed by each id of `new_ids` that is neither an old credential
/// nor already present, in the order of `new_ids`.
pub open spec fn add_fresh(
    base: Seq<Seq<char>>,
    prev_ids: Seq<Seq<char>>,
    new_ids: Seq<Seq<char>>,
) -> Seq<Seq<char>>
    decreases new_ids.len(),
{
    if new_ids.len() == 0 {
        base
    } else {
        let acc = add_fresh(base, prev_ids, new_ids.drop_last());
        let id = new_ids.last();
        if !prev_ids.contains(id) && !acc.contains(id) {
            acc.push(id)
        } else {
            acc
        }
    }
}

/// The enabled set after the credential list changed from `prev_ids` to
/// `new_ids` by a save: removed credentials leave, newly created ones are
/// switched on.
pub open spec fn upserted(
    prev_enabled: Seq<Seq<char>>,
    prev_ids: Seq<Seq<char>>,
    new_ids: Seq<Seq<char>>,
) -> Seq<Seq<char>> {
    add_fresh(keep_known(prev_enabled, new_ids), prev_ids, new_ids)
}

/// Which credential the core should make active after a switch, if any.
pub open spec fn activation(
    enabled: Seq<Seq<char>>,
    active: Seq<char>,
    toggled_id: Seq<char>,
    on: bool,
) -> Option<Seq<char>> {
    if on {
        if trim(active).len() == 0 || !enabled.contains(active) {
            Some(toggled_id)
        } else {
            None
        }
    } else if active == toggled_id {
        if enabled.len() > 0 {
            Some(enabled[0])
        } else {
            None
        }
    } else {
        None
    }
}

// ---------------------------------------------------------------------------
// Lemmas on `Seq::filter`
// ---------------------------------------------------------------------------

/// An element survives a filter exactly when it was there and passes it.
pub proof fn lemma_filter_contains_iff(xs: Seq<Seq<char>>, p: spec_fn(Seq<char>) -> bool, x: Seq<char>)
    ensures
        xs.filter(p).contains(x) <==> (xs.contains(x) && p(x)),
    decreases xs.len(),
{
    reveal(Seq::filter);
    if xs.len() > 0 {
        let init = xs.drop_last();
        lemma_filter_contains_iff(init, p, x);
        assert(xs =~= init.push(xs.last()));
        if xs.contains(x) && x != xs.last() {
            let k = choose|k: int| 0 <= k < xs.len() && xs[k] == x;
            assert(init[k] == x);
        }
        if init.contains(x) {
            let k = choose|k: int| 0 <= k < init.len() && init[k] == x;
            assert(xs[k] == x);
        }
    }
}

/// Filtering keeps a list free of repeats.
pub proof fn lemma_filter_no_duplicates(xs: Seq<Seq<char>>, p: spec_fn(Seq<char>) -> bool)
    requires
        xs.no_duplicates(),
    ensures
        xs.filter(p).no_duplicates(),
    decreases xs.len(),
{
    reveal(Seq::filter);
    if xs.len() > 0 {
        let init = xs.drop_last();
        assert(init.no_duplicates());
        lemma_filter_no_duplicates(init, p);
        lemma_filter_contains_iff(init, p, xs.last());
        if init.contains(xs.last()) {
            let k = choose|k: int| 0 <= k < init.len() && init[k] == xs.last();
            assert(xs[k] == xs[xs.len() - 1]);
        }
    }
}

/// Pushing an element that is not present keeps a list free of repeats.
pub proof fn lemma_push_no_duplicates(xs: Seq<Seq<char>>, x: Seq<char>)
    requires
        xs.no_duplicates(),
        !xs.contains(x),
    ensures
        xs.push(x).no_duplicates(),
{
    let ys = xs.push(x);
    assert forall|i: int, j: int| 0 <= i < ys.len() && 0 <= j < ys.len() && i != j implies ys[i]
        != ys[j] by {
        if i < xs.len() && j < xs.len() {
        } else if i == xs.len() {
            assert(xs[j] == ys[j]);
        } else {
            assert(xs[i] == ys[i]);
        }
    }
}

/// One more element of `v` seen.
proof fn lemma_ids_take_step(v: Seq<String>, i: int)
    requires
        0 <= i < v.len(),
    ensures
        ids(v).take(i + 1) == ids(v).take(i).push(v[i]@),
        ids(v)[i] == v[i]@,
{
    assert(ids(v).take(i + 1) =~= ids(v).take(i).push(v[i]@));
}

/// The ids of a pushed list.
proof fn lemma_ids_push(v: Seq<String>, s: String)
    ensures
        ids(v.push(s)) == ids(v).push(s@),
{
    assert(ids(v.push(s)) =~= ids(v).push(s@));
}

/// A filter that every element passes changes nothing.
pub proof fn lemma_filter_all(xs: Seq<Seq<char>>, p: spec_fn(Seq<char>) -> bool)
    requires
        forall|i: int| 0 <= i < xs.len() ==> #[trigger] p(xs[i]),
    ensures
        xs.filter(p) == xs,
    decreases xs.len(),
{
    reveal(Seq::filter);
    if xs.len() > 0 {
        let init = xs.drop_last();
        assert forall|i: int| 0 <= i < init.len() implies #[trigger] p(init[i]) by {
            assert(init[i] == xs[i]);
        }
        lemma_filter_all(init, p);
        assert(p(xs[xs.len() - 1]));
        assert(init.push(xs.last()) =~= xs);
    }
}

/// What `add_fresh` holds.
pub proof fn lemma_add_fresh_contains(
    base: Seq<Seq<char>>,
    prev_ids: Seq<Seq<char>>,
    new_ids: Seq<Seq<char>>,
    x: Seq<char>,
)
    ensures
        add_fresh(base, prev_ids, new_ids).contains(x) <==> (base.contains(x) || (
        new_ids.contains(x) && !prev_ids.contains(x))),
    decreases new_ids.len(),
{
    if new_ids.len() > 0 {
        let init = new_ids.drop_last();
        lemma_add_fresh_contains(base, prev_ids, init, x);
        assert(new_ids =~= init.push(new_ids.last()));
        if new_ids.contains(x) && x != new_ids.last() {
            let k = choose|k: int| 0 <= k < new_ids.len() && new_ids[k] == x;
            assert(init[k] == x);
        }
        if init.contains(x) {
            let k = choose|k: int| 0 <= k < init.len() && init[k] == x;
            assert(new_ids[k] == x);
        }
    }
}

/// `add_fresh` adds no repeats.
pub proof fn lemma_add_fresh_no_duplicates(
    base: Seq<Seq<char>>,
    prev_ids: Seq<Seq<char>>,
    new_ids: Seq<Seq<char>>,
)
    requires
        base.no_duplicates(),
    ensures
        add_fresh(base, prev_ids, new_ids).no_duplicates(),
    decreases new_ids.len(),
{
    if new_ids.len() > 0 {
        let init = new_ids.drop_last();
        lemma_add_fresh_no_duplicates(base, prev_ids, init);
        let acc = add_fresh(base, prev_ids, init);
        if !prev_ids.contains(new_ids.last()) && !acc.contains(new_ids.last()) {
            lemma_push_no_duplicates(acc, new_ids.last());
        }
    }
}

// ---------------------------------------------------------------------------
// Executable helpers
// ---------------------------------------------------------------------------

/// Whether `list` holds `id`.
pub fn contains_id(list: &Vec<String>, id: &str) -> (r: bool)
    ensures
        r == ids(list@).contains(id@),
{
    let mut i: usize = 0;
    while i < list.len()
        invariant
            i <= list@.len(),
            forall|k: int| 0 <= k < i ==> ids(list@)[k] != id@,
        decreases list.len() - i,
    {
        if str_eq(list[i].as_str(), id) {
            assert(ids(list@)[i as int] == id@);
            return true;
        }
        i += 1;
    }
    proof {
        if ids(list@).contains(id@) {
            let k = choose|k: int| 0 <= k < ids(list@).len() && ids(list@)[k] == id@;
            assert(ids(list@)[k] != id@);
        }
    }
    false
}

/// The ids of `xs` that `known` holds, in order.
pub fn keep_known_ids(xs: &Vec<String>, known: &Vec<String>) -> (r: Vec<String>)
    ensures
        ids(r@) == keep_known(ids(xs@), ids(known@)),
{
    let ghost p = is_known(ids(known@));
    let mut out: Vec<String> = Vec::new();
    let mut i: usize = 0;
    while i < xs.len()
        invariant
            i <= xs@.len(),
            p == is_known(ids(known@)),
            ids(out@) == ids(xs@).take(i as int).filter(p),
        decreases xs.len() - i,
    {
        proof {
            lemma_ids_take_step(xs@, i as int);
            ids(xs@).take(i as int).lemma_filter_push(xs@[i as int]@, p);
        }
        if contains_id(known, xs[i].as_str()) {
            let s = xs[i].clone();
            proof {
                lemma_ids_push(out@, s);
            }
            out.push(s);
        }
        i += 1;
    }
    assert(ids(xs@).take(xs@.len() as int) =~= ids(xs@));
    out
}

// ---------------------------------------------------------------------------
// The operations
// ---------------------------------------------------------------------------

/// The ids of a saved list, if there is one.
pub open spec fn saved_ids(saved: Option<Vec<String>>) -> Option<Seq<Seq<char>>> {
    match saved {
        Some(s) => Some(ids(s@)),
        None => None,
    }
}

/// The enabled ids to show once the saved list (`saved`, `None` where
/// nothing was ever saved) is aligned with the credentials that exist.
pub fn overlay_enabled_credential_ids(
    saved: Option<Vec<String>>,
    known_ids: &Vec<String>,
    active_id: &str,
) -> (r: Vec<String>)
    ensures
        ids(r@) == overlay(saved_ids(saved), ids(known_ids@), active_id@),
{
    match saved {
        Some(s) => {
            let r = keep_known_ids(&s, known_ids);
            assert(saved_ids(saved) == Some(ids(s@)));
            r
        },
        None => {
            let active = trim_str(active_id);
            if !active.as_str().is_empty() && contains_id(known_ids, active.as_str()) {
                let mut out: Vec<String> = Vec::new();
                out.push(active);
                proof {
                    lemma_ids_push(Seq::empty(), out@[0]);
                    assert(Seq::<String>::empty().push(out@[0]) =~= out@);
                }
                out
            } else {
                let out: Vec<String> = Vec::new();
                assert(ids(out@) =~= Seq::<Seq<char>>::empty());
                out
            }
        },
    }
}

/// The enabled ids after switching `id` on or off. Saving the list and
/// refreshing the model list are left to the caller.
pub fn enabled_after_toggle(current: &Vec<String>, id: &str, on: bool) -> (r: Vec<String>)
    ensures
        ids(r@) == toggled(ids(current@), id@, on),
{
    let ghost p = is_not(id@);
    let mut out: Vec<String> = Vec::new();
    let mut i: usize = 0;
    while i < current.len()
        invariant
            i <= current@.len(),
            p == is_not(id@),
            ids(out@) == ids(current@).take(i as int).filter(p),
        decreases current.len() - i,
    {
        proof {
            lemma_ids_take_step(current@, i as int);
            ids(current@).take(i as int).lemma_filter_push(current@[i as int]@, p);
        }
        if !str_eq(current[i].as_str(), id) {
            let s = current[i].clone();
            proof {
                lemma_ids_push(out@, s);
            }
            out.push(s);
        }
        i += 1;
    }
    assert(ids(current@).take(current@.len() as int) =~= ids(current@));
    if on {
        let s = id.to_string();
        proof {
            lemma_ids_push(out@, s);
        }
        out.push(s);
    }
    out
}

/// The enabled ids after a credential was saved: those whose credential is
/// gone leave, and each credential that did not exist before is switched on.
pub fn enabled_after_upsert(
    prev_enabled: &Vec<String>,
    prev_ids: &Vec<String>,
    new_ids: &Vec<String>,
) -> (r: Vec<String>)
    ensures
        ids(r@) == upserted(ids(prev_enabled@), ids(prev_ids@), ids(new_ids@)),
{
    let mut out = keep_known_ids(prev_enabled, new_ids);
    let ghost base = ids(out@);
    let mut i: usize = 0;
    while i < new_ids.len()
        invariant
            i <= new_ids@.len(),
            base == keep_known(ids(prev_enabled@), ids(new_ids@)),
            ids(out@) == add_fresh(base, ids(prev_ids@), ids(new_ids@).take(i as int)),
        decreases new_ids.len() - i,
    {
        proof {
            lemma_ids_take_step(new_ids@, i as int);
            let t = ids(new_ids@).take(i as int + 1);
            assert(t.drop_last() =~= ids(new_ids@).take(i as int));
            assert(t.last() == new_ids@[i as int]@);
        }
        let id = new_ids[i].as_str();
        if !contains_id(prev_ids, id) && !contains_id(&out, id) {
            let s = new_ids[i].clone();
            proof {
                lemma_ids_push(out@, s);
            }
            out.push(s);
        }
        i += 1;
    }
    assert(ids(new_ids@).take(new_ids@.len() as int) =~= ids(new_ids@));
    out
}

/// The enabled ids after a credential was deleted: only those whose
/// credential still exists stay, in their order.
pub fn enabled_after_delete(prev_enabled: &Vec<String>, known_ids: &Vec<String>) -> (r: Vec<
    String,
>)
    ensures
        ids(r@) == keep_known(ids(prev_enabled@), ids(known_ids@)),
{
    keep_known_ids(prev_enabled, known_ids)
}

/// After a switch, the credential the core should make active: on switching
/// one on, that one, unless the active credential is set and enabled; on
/// switching the active one off, the first enabled credential, if any.
pub fn activate_id_after_toggle(
    enabled: &Vec<String>,
    active_id: &str,
    toggled_id: &str,
    on: bool,
) -> (r: Option<String>)
    ensures
        match r {
            Some(s) => activation(ids(enabled@), active_id@, toggled_id@, on) == Some(s@),
            None => activation(ids(enabled@), active_id@, toggled_id@, on) is None,
        },
{
    if on {
        if is_blank(active_id) || !contains_id(enabled, active_id) {
            Some(toggled_id.to_string())
        } else {
            None
        }
    } else if str_eq(active_id, toggled_id) {
        if enabled.len() > 0 {
            Some(enabled[0].clone())
        } else {
            None
        }
    } else {
        None
    }
}

// ---------------------------------------------------------------------------
// Laws
// ---------------------------------------------------------------------------

/// Switching a credential on leaves it enabled, as the last entry.
pub proof fn law_toggle_on_enables(current: Seq<Seq<char>>, id: Seq<char>)
    ensures
        toggled(current, id, true).contains(id),
        toggled(current, id, true).last() == id,
{
    let r = toggled(current, id, true);
    assert(r[r.len() - 1] == id);
}

/// Switching a credential off leaves it disabled.
pub proof fn law_toggle_off_disables(current: Seq<Seq<char>>, id: Seq<char>)
    ensures
        !toggled(current, id, false).contains(id),
{
    lemma_filter_contains_iff(current, is_not(id), id);
}

/// A switch leaves every other credential as it was.
pub proof fn law_toggle_keeps_others(current: Seq<Seq<char>>, id: Seq<char>, on: bool, x: Seq<char>)
    requires
        x != id,
    ensures
        toggled(current, id, on).contains(x) <==> current.contains(x),
{
    lemma_filter_contains_iff(current, is_not(id), x);
    let rest = current.filter(is_not(id));
    if on {
        if rest.push(id).contains(x) {
            let k = choose|k: int| 0 <= k < rest.len() + 1 && rest.push(id)[k] == x;
            assert(rest[k] == x);
        }
        if rest.contains(x) {
            let k = choose|k: int| 0 <= k < rest.len() && rest[k] == x;
            assert(rest.push(id)[k] == x);
        }
    }
}

/// Repeating the same switch changes nothing more.
pub proof fn law_toggle_idempotent(current: Seq<Seq<char>>, id: Seq<char>, on: bool)
    ensures
        toggled(toggled(current, id, on), id, on) == toggled(current, id, on),
{
    let p = is_not(id);
    let rest = current.filter(p);
    assert forall|i: int| 0 <= i < rest.len() implies #[trigger] p(rest[i]) by {
        current.lemma_filter_pred(p, i);
    }
    lemma_filter_all(rest, p);
    if on {
        rest.lemma_filter_push(id, p);
    }
}

/// A switch keeps the enabled list free of repeats.
pub proof fn law_toggle_keeps_unique(current: Seq<Seq<char>>, id: Seq<char>, on: bool)
    requires
        current.no_duplicates(),
    ensures
        toggled(current, id, on).no_duplicates(),
{
    lemma_filter_no_duplicates(current, is_not(id));
    if on {
        lemma_filter_contains_iff(current, is_not(id), id);
        lemma_push_no_duplicates(current.filter(is_not(id)), id);
    }
}

/// After a deletion exactly the enabled credentials that still exist stay.
pub proof fn law_delete_keeps_known(prev: Seq<Seq<char>>, known: Seq<Seq<char>>, x: Seq<char>)
    ensures
        keep_known(prev, known).contains(x) <==> (prev.contains(x) && known.contains(x)),
        prev.no_duplicates() ==> keep_known(prev, known).no_duplicates(),
{
    lemma_filter_contains_iff(prev, is_known(known), x);
    if prev.no_duplicates() {
        lemma_filter_no_duplicates(prev, is_known(known));
    }
}

/// After a save, a credential is enabled exactly when it exists and was
/// enabled before or is new.
pub proof fn law_upsert_enabled(
    prev_enabled: Seq<Seq<char>>,
    prev_ids: Seq<Seq<char>>,
    new_ids: Seq<Seq<char>>,
    x: Seq<char>,
)
    ensures
        upserted(prev_enabled, prev_ids, new_ids).contains(x) <==> (new_ids.contains(x) && (
        prev_enabled.contains(x) || !prev_ids.contains(x))),
        prev_enabled.no_duplicates() ==> upserted(prev_enabled, prev_ids, new_ids).no_duplicates(),
{
    let base = keep_known(prev_enabled, new_ids);
    lemma_filter_contains_iff(prev_enabled, is_known(new_ids), x);
    lemma_add_fresh_contains(base, prev_ids, new_ids, x);
    if prev_enabled.no_duplicates() {
        lemma_filter_no_duplicates(prev_enabled, is_known(new_ids));
        lemma_add_fresh_no_duplicates(base, prev_ids, new_ids);
    }
}

/// What is first shown as enabled is always an existing credential.
pub proof fn law_overlay_only_known(
    saved: Option<Seq<Seq<char>>>,
    known: Seq<Seq<char>>,
    active: Seq<char>,
    x: Seq<char>,
)
    ensures
        overlay(saved, known, active).contains(x) ==> known.contains(x),
{
    match saved {
        Some(s) => {
            lemma_filter_contains_iff(s, is_known(known), x);
        },
        None => {
            let a = trim(active);
            if a.len() > 0 && known.contains(a) && seq![a].contains(x) {
                assert(seq![a][0] == x);
            }
        },
    }
}

/// A credential switched on becomes the active one unless an enabled one
/// already is; switching the active one off hands over to the first enabled.
pub proof fn law_activation_targets_enabled(
    enabled: Seq<Seq<char>>,
    active: Seq<char>,
    toggled_id: Seq<char>,
    on: bool,
)
    ensures
        on ==> (activation(enabled, active, toggled_id, on) is None <==> (trim(active).len() > 0
            && enabled.contains(active))),
        !on ==> (activation(enabled, active, toggled_id, on) matches Some(a) ==> enabled.contains(
            a,
        )),
{
    if !on && active == toggled_id && enabled.len() > 0 {
        assert(enabled[0] == enabled[0]);
    }
}

} // verus!
