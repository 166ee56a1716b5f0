use vstd::prelude::*;

use crate::config::{
    default_group_id, default_group_id_spec, default_group_name, default_group_name_spec,
    normalize_group_name, normalize_group_id, normalize_group_name_spec, normalize_group_spec,
    Action, ActionGroup, ActionView, GroupView,
};
use crate::text::{decimal, decimal_value, lemma_decimal_digits, push_decimal, string_from, trim_seq};

verus! {

// ---------------------------------------------------------------------------
// Generated group ids
// ---------------------------------------------------------------------------

/// The id generated for counter value `k`: `group-<k>`.
pub open spec fn generated_id(k: nat) -> Seq<char> {
    "group-"@ + decimal(k)
}

/// The counter value an id was generated from, if it has the form of one.
pub open spec fn generated_index(id: Seq<char>) -> Option<nat> {
    if id.len() > 6 && id.take(6) == "group-"@ && generated_id(decimal_value(id.skip(6))) == id {
        Some(decimal_value(id.skip(6)))
    } else {
        None
    }
}

pub proof fn lemma_generated_index(k: nat)
    ensures
        generated_index(generated_id(k)) == Some(k),
        generated_id(k).len() > 6,
{
    reveal_strlit("group-");
    lemma_decimal_digits(k);
    let id = generated_id(k);
    assert(id.skip(6) =~= decimal(k));
    assert(id.take(6) =~= "group-"@);
}

/// Whether some group has id `id`.
pub open spec fn id_used(gs: Seq<GroupView>, id: Seq<char>) -> bool {
    exists|i: int| 0 <= i < gs.len() && (#[trigger] gs[i]).id == id
}

/// `k` is the first counter value from `c` on whose generated id is free.
pub open spec fn is_next_free(gs: Seq<GroupView>, c: nat, k: nat) -> bool {
    &&& k >= c
    &&& !id_used(gs, generated_id(k))
    &&& forall|j: nat| c <= j < k ==> id_used(gs, #[trigger] generated_id(j))
}

/// The first counter value from `c` on whose generated id no group uses.
pub open spec fn next_free_index(gs: Seq<GroupView>, c: nat) -> nat {
    choose|k: nat| is_next_free(gs, c, k)
}

pub proof fn lemma_next_free_unique(gs: Seq<GroupView>, c: nat, k: nat)
    requires
        is_next_free(gs, c, k),
    ensures
        next_free_index(gs, c) == k,
{
    let k2 = next_free_index(gs, c);
    assert(is_next_free(gs, c, k2));
    if k2 < k {
        assert(id_used(gs, generated_id(k2)));
    } else if k < k2 {
        assert(id_used(gs, generated_id(k)));
    }
}

/// The number of groups whose id was generated from a counter value `>= c`.
pub open spec fn count_generated_from(gs: Seq<GroupView>, c: nat) -> nat
    decreases gs.len(),
{
    if gs.len() == 0 {
        0
    } else {
        count_generated_from(gs.drop_last(), c) + match generated_index(gs.last().id) {
            Some(k) => if k >= c {
                1nat
            } else {
                0nat
            },
            None => 0nat,
        }
    }
}

pub proof fn lemma_count_step(gs: Seq<GroupView>, c: nat)
    ensures
        count_generated_from(gs, c + 1) <= count_generated_from(gs, c),
        id_used(gs, generated_id(c)) ==> count_generated_from(gs, c + 1) < count_generated_from(
            gs,
            c,
        ),
    decreases gs.len(),
{
    lemma_generated_index(c);
    if gs.len() > 0 {
        lemma_count_step(gs.drop_last(), c);
        if id_used(gs, generated_id(c)) {
            let i = choose|i: int| 0 <= i < gs.len() && (#[trigger] gs[i]).id == generated_id(c);
            if i < gs.len() - 1 {
                assert(gs.drop_last()[i] == gs[i]);
                assert(id_used(gs.drop_last(), generated_id(c)));
            }
        }
    }
}

pub proof fn lemma_count_push(gs: Seq<GroupView>, g: GroupView, c: nat)
    ensures
        count_generated_from(gs.push(g), c) <= count_generated_from(gs, c) + 1,
{
    assert(gs.push(g).drop_last() =~= gs);
}

/// The bound that keeps the counter from overflowing.
pub open spec fn counter_budget(gs: Seq<GroupView>, c: nat) -> nat {
    c + count_generated_from(gs, c)
}

// ---------------------------------------------------------------------------
// Registering groups
// ---------------------------------------------------------------------------

/// The groups kept so far and the counter for generated ids.
pub struct GroupState {
    pub groups: Seq<GroupView>,
    pub counter: nat,
}

/// The id of the group named `name`, if one is kept.
pub open spec fn find_group_by_name(gs: Seq<GroupView>, name: Seq<char>) -> Option<Seq<char>>
    decreases gs.len(),
{
    if gs.len() == 0 {
        None
    } else if gs[0].name == name {
        Some(gs[0].id)
    } else {
        find_group_by_name(gs.drop_first(), name)
    }
}

/// Registers a group: it is normalized; an empty or taken id is replaced by
/// the next free generated id; a group whose name is already kept is dropped
/// in favour of the kept one.  Yields the new state and the id the group's
/// actions are to use.
pub open spec fn register_spec(g: GroupView, st: GroupState) -> (GroupState, Seq<char>) {
    let ng = normalize_group_spec(g);
    let needs = ng.id.len() == 0 || id_used(st.groups, ng.id);
    let k = next_free_index(st.groups, st.counter);
    let id = if needs {
        generated_id(k)
    } else {
        ng.id
    };
    let counter = if needs {
        k + 1
    } else {
        st.counter
    };
    match find_group_by_name(st.groups, ng.name) {
        Some(existing) => (GroupState { groups: st.groups, counter: counter }, existing),
        None => (
            GroupState {
                groups: st.groups.push(GroupView { id: id, name: ng.name }),
                counter: counter,
            },
            id,
        ),
    }
}

/// Registers the groups of `gs` in order.
pub open spec fn register_all(gs: Seq<GroupView>, st: GroupState) -> GroupState
    decreases gs.len(),
{
    if gs.len() == 0 {
        st
    } else {
        register_spec(gs.last(), register_all(gs.drop_last(), st)).0
    }
}

/// The default group, registered when no kept group has its id.
pub open spec fn register_default(st: GroupState) -> GroupState {
    if id_used(st.groups, default_group_id_spec()) {
        st
    } else {
        register_spec(
            GroupView { id: default_group_id_spec(), name: default_group_name_spec() },
            st,
        ).0
    }
}

/// The group an action is put in: its own (trimmed) group id when a kept group
/// has it; otherwise the group named by its legacy group name, registered when
/// new; otherwise the default group, that is the kept group with the default
/// name when there is one, and the default id when not.
pub open spec fn resolve_action_spec(a: ActionView, st: GroupState) -> (GroupState, ActionView) {
    let cur = trim_seq(a.group_id);
    let resolved: (GroupState, Seq<char>) = if cur.len() > 0 && id_used(st.groups, cur) {
        (st, cur)
    } else if trim_seq(a.group).len() > 0 {
        let name = normalize_group_name_spec(a.group);
        match find_group_by_name(st.groups, name) {
            Some(existing) => (st, existing),
            None => register_spec(GroupView { id: Seq::empty(), name: name }, st),
        }
    } else {
        match find_group_by_name(st.groups, default_group_name_spec()) {
            Some(existing) => (st, existing),
            None => (st, default_group_id_spec()),
        }
    };
    (resolved.0, ActionView { group_id: resolved.1, group: Seq::empty(), ..a })
}

/// Resolves the groups of the actions in order.
pub open spec fn resolve_all(acts: Seq<ActionView>, st: GroupState) -> (GroupState, Seq<ActionView>)
    decreases acts.len(),
{
    if acts.len() == 0 {
        (st, Seq::empty())
    } else {
        let prev = resolve_all(acts.drop_last(), st);
        let step = resolve_action_spec(acts.last(), prev.0);
        (step.0, prev.1.push(step.1))
    }
}

/// The normalized groups and the actions with resolved group ids.
pub open spec fn normalize_groups_spec(groups: Seq<GroupView>, actions: Seq<ActionView>) -> (
    Seq<GroupView>,
    Seq<ActionView>,
) {
    let st0 = GroupState { groups: Seq::empty(), counter: 1 };
    let st1 = register_default(register_all(groups, st0));
    let res = resolve_all(actions, st1);
    (res.0.groups, res.1)
}

pub open spec fn groups_view(v: Seq<ActionGroup>) -> Seq<GroupView> {
    v.map_values(|g: ActionGroup| g@)
}

pub open spec fn actions_view(v: Seq<Action>) -> Seq<ActionView> {
    v.map_values(|a: Action| a@)
}

// ---------------------------------------------------------------------------
// Executable registration
// ---------------------------------------------------------------------------

/// Whether some group has id `id`.
pub(crate) fn id_used_exec(gs: &Vec<ActionGroup>, id: &String) -> (b: bool)
    ensures
        b == id_used(groups_view(gs@), id@),
{
    let n = gs.len();
    let mut i: usize = 0;
    while i < n
        invariant
            i <= n,
            n == gs@.len(),
            forall|k: int| 0 <= k < i ==> gs@[k].id@ != id@,
        decreases n - i,
    {
        if gs[i].id == *id {
            assert(groups_view(gs@)[i as int].id == id@);
            return true;
        }
        i = i + 1;
    }
    assert forall|k: int| 0 <= k < groups_view(gs@).len() implies (#[trigger] groups_view(
        gs@,
    )[k]).id != id@ by {
        assert(groups_view(gs@)[k] == gs@[k]@);
    }
    false
}

pub proof fn lemma_find_by_name_index(gs: Seq<GroupView>, name: Seq<char>, i: int)
    requires
        0 <= i < gs.len(),
        gs[i].name == name,
        forall|k: int| 0 <= k < i ==> gs[k].name != name,
    ensures
        find_group_by_name(gs, name) == Some(gs[i].id),
    decreases i,
{
    if i > 0 {
        lemma_find_by_name_index(gs.drop_first(), name, i - 1);
    }
}

pub proof fn lemma_find_by_name_none(gs: Seq<GroupView>, name: Seq<char>)
    requires
        forall|k: int| 0 <= k < gs.len() ==> gs[k].name != name,
    ensures
        find_group_by_name(gs, name) is None,
    decreases gs.len(),
{
    if gs.len() > 0 {
        lemma_find_by_name_none(gs.drop_first(), name);
    }
}

/// The id of the group named `name`, if one is kept.
fn find_by_name(gs: &Vec<ActionGroup>, name: &String) -> (r: Option<String>)
    ensures
        match r {
            Some(id) => find_group_by_name(groups_view(gs@), name@) == Some(id@),
            None => find_group_by_name(groups_view(gs@), name@) is None,
        },
{
    let n = gs.len();
    let mut i: usize = 0;
    while i < n
        invariant
            i <= n,
            n == gs@.len(),
            forall|k: int| 0 <= k < i ==> gs@[k].name@ != name@,
        decreases n - i,
    {
        if gs[i].name == *name {
            proof {
                lemma_find_by_name_index(groups_view(gs@), name@, i as int);
            }
            return Some(gs[i].id.clone());
        }
        i = i + 1;
    }
    proof {
        lemma_find_by_name_none(groups_view(gs@), name@);
    }
    None
}

/// The next free generated id: `group-<counter>` for the first counter value
/// whose id no kept group uses.  The counter is left one past that value.
fn make_generated_group_id(counter: &mut u128, gs: &Vec<ActionGroup>) -> (id: String)
    requires
        counter_budget(groups_view(gs@), *old(counter) as nat) < u128::MAX,
    ensures
        id@ == generated_id(next_free_index(groups_view(gs@), *old(counter) as nat)),
        *final(counter) as nat == next_free_index(groups_view(gs@), *old(counter) as nat) + 1,
        counter_budget(groups_view(gs@), *final(counter) as nat) <= counter_budget(
            groups_view(gs@),
            *old(counter) as nat,
        ) + 1,
{
    let ghost gv = groups_view(gs@);
    let ghost c0 = *counter as nat;
    loop
        invariant
            gv == groups_view(gs@),
            c0 == *old(counter) as nat,
            *counter as nat >= c0,
            counter_budget(gv, *counter as nat) <= counter_budget(gv, c0),
            counter_budget(gv, c0) < u128::MAX,
            forall|j: nat| c0 <= j < *counter as nat ==> id_used(gv, #[trigger] generated_id(j)),
        decreases count_generated_from(gv, *counter as nat),
    {
        let mut candidate = string_from("group-");
        push_decimal(&mut candidate, *counter);
        let ghost c = *counter as nat;
        proof {
            lemma_count_step(gv, c);
        }
        *counter = *counter + 1;
        if !id_used_exec(gs, &candidate) {
            proof {
                assert(is_next_free(gv, c0, c));
                lemma_next_free_unique(gv, c0, c);
            }
            return candidate;
        }
    }
}

/// Registers a group (see `register_spec`) and returns the id its actions use.
fn register_group(group: ActionGroup, normalized_groups: &mut Vec<ActionGroup>, counter: &mut u128) -> (id: String)
    requires
        counter_budget(groups_view(old(normalized_groups)@), *old(counter) as nat) + 1 < u128::MAX,
    ensures
        (GroupState { groups: groups_view(final(normalized_groups)@), counter: *final(counter) as nat }, id@)
            == register_spec(
            group@,
            GroupState { groups: groups_view(old(normalized_groups)@), counter: *old(counter) as nat },
        ),
        counter_budget(groups_view(final(normalized_groups)@), *final(counter) as nat)
            <= counter_budget(groups_view(old(normalized_groups)@), *old(counter) as nat) + 2,
{
    let ghost gv = groups_view(normalized_groups@);
    let ghost c0 = *counter as nat;
    let mut g = group.normalized();
    if g.id.as_str().is_empty() || id_used_exec(normalized_groups, &g.id) {
        g.id = make_generated_group_id(counter, normalized_groups);
    }
    if let Some(existing) = find_by_name(normalized_groups, &g.name) {
        return existing;
    }
    let id = g.id.clone();
    let ghost gg = g@;
    normalized_groups.push(g);
    proof {
        assert(groups_view(normalized_groups@) =~= gv.push(gg));
        lemma_count_push(gv, gg, *counter as nat);
    }
    id
}

} // verus!

verus! {

/// Keeps every group once (by name, with unique non-empty ids), adds the
/// default group when its id is not taken, and puts every action in a kept
/// group (see `normalize_groups_spec`); the legacy group names of the actions
/// are cleared.
pub fn normalize_groups_and_actions(groups: Vec<ActionGroup>, actions: &mut Vec<Action>) -> (r: Vec<ActionGroup>)
    ensures
        (groups_view(r@), actions_view(final(actions)@)) == normalize_groups_spec(
            groups_view(groups@),
            actions_view(old(actions)@),
        ),
{
    let ghost gv0 = groups_view(groups@);
    let ghost st0 = GroupState { groups: Seq::empty(), counter: 1 };
    let mut normalized_groups: Vec<ActionGroup> = Vec::new();
    let mut counter: u128 = 1;
    let n = groups.len();
    let mut i: usize = 0;
    assert(usize::MAX < 0x1_0000_0000_0000_0000);
    assert(groups_view(normalized_groups@) =~= Seq::<GroupView>::empty());
    assert(gv0.take(0) =~= Seq::<GroupView>::empty());
    while i < n
        invariant
            i <= n,
            n == groups@.len(),
            gv0 == groups_view(groups@),
            st0 == (GroupState { groups: Seq::empty(), counter: 1 }),
            (GroupState { groups: groups_view(normalized_groups@), counter: counter as nat })
                == register_all(gv0.take(i as int), st0),
            counter_budget(groups_view(normalized_groups@), counter as nat) <= 1 + 2 * i,
        decreases n - i,
    {
        let g = ActionGroup { id: groups[i].id.clone(), name: groups[i].name.clone() };
        assert(g@ == gv0[i as int]);
        assert(gv0.take(i + 1).drop_last() =~= gv0.take(i as int));
        register_group(g, &mut normalized_groups, &mut counter);
        i = i + 1;
    }
    assert(gv0.take(n as int) =~= gv0);
    let ghost st1 = GroupState { groups: groups_view(normalized_groups@), counter: counter as nat };
    let did = default_group_id();
    if !id_used_exec(&normalized_groups, &did) {
        let dg = ActionGroup { id: default_group_id(), name: default_group_name() };
        register_group(dg, &mut normalized_groups, &mut counter);
    }
    let ghost st2 = GroupState { groups: groups_view(normalized_groups@), counter: counter as nat };
    assert(st2 == register_default(st1));
    let ghost av0 = actions_view(actions@);
    let m = actions.len();
    let mut j: usize = 0;
    while j < m
        invariant
            j <= m,
            m == actions@.len(),
            av0.len() == m,
            forall|k: int| j <= k < m ==> #[trigger] actions@[k]@ == av0[k],
            (GroupState { groups: groups_view(normalized_groups@), counter: counter as nat },
            actions_view(actions@).take(j as int)) == resolve_all(av0.take(j as int), st2),
            counter_budget(groups_view(normalized_groups@), counter as nat) <= 1 + 2 * (n + 1 + j),
        decreases m - j,
    {
        let ghost before = GroupState { groups: groups_view(normalized_groups@), counter: counter as nat };
        let ghost a0 = actions@[j as int]@;
        let cur = normalize_group_id(&actions[j].group_id);
        let legacy_present = {
            let gc = crate::text::chars_of(actions[j].group.as_str());
            let t = crate::text::trim_chars(gc.as_slice());
            t.len() > 0
        };
        let resolved: String = if !cur.as_str().is_empty() && id_used_exec(&normalized_groups, &cur) {
            cur
        } else if legacy_present {
            let name = normalize_group_name(&actions[j].group);
            match find_by_name(&normalized_groups, &name) {
                Some(existing) => existing,
                None => {
                    let ng = ActionGroup { id: String::new(), name: name };
                    register_group(ng, &mut normalized_groups, &mut counter)
                },
            }
        } else {
            let dn = default_group_name();
            match find_by_name(&normalized_groups, &dn) {
                Some(existing) => existing,
                None => default_group_id(),
            }
        };
        actions[j].group_id = resolved;
        actions[j].group = String::new();
        proof {
            assert(av0.take(j + 1).drop_last() =~= av0.take(j as int));
            assert(actions_view(actions@).take(j + 1).drop_last() =~= actions_view(actions@).take(j as int));
        }
        j = j + 1;
    }
    assert(av0.take(m as int) =~= av0);
    assert(actions_view(actions@).take(m as int) =~= actions_view(actions@));
    normalized_groups
}

} // verus!

verus! {

// ---------------------------------------------------------------------------
// Laws of group normalization
// ---------------------------------------------------------------------------

/// Kept groups: non-empty trimmed ids, normalized names, ids and names unique.
pub open spec fn groups_well_formed(gs: Seq<GroupView>) -> bool {
    &&& forall|i: int|
        0 <= i < gs.len() ==> (#[trigger] gs[i]).id.len() > 0 && crate::text::is_trimmed(gs[i].id)
            && normalize_group_name_spec(gs[i].name) == gs[i].name
    &&& forall|i: int, j: int|
        0 <= i < j < gs.len() ==> (#[trigger] gs[i]).id != (#[trigger] gs[j]).id && gs[i].name
            != gs[j].name
}

/// The default group is kept, or a kept group carries its name.
pub open spec fn default_covered(gs: Seq<GroupView>) -> bool {
    id_used(gs, default_group_id_spec()) || find_group_by_name(gs, default_group_name_spec()) is Some
}

/// An action whose group is resolved: no legacy name, and the id of a kept
/// group.
pub open spec fn action_resolved(a: ActionView, gs: Seq<GroupView>) -> bool {
    &&& a.group.len() == 0
    &&& id_used(gs, a.group_id)
}

pub open spec fn all_resolved(acts: Seq<ActionView>, gs: Seq<GroupView>) -> bool {
    forall|i: int| 0 <= i < acts.len() ==> action_resolved(#[trigger] acts[i], gs)
}

/// `b` extends `a` at the end.
pub open spec fn extends(a: Seq<GroupView>, b: Seq<GroupView>) -> bool {
    a.len() <= b.len() && b.take(a.len() as int) == a
}

pub proof fn lemma_extends_used(a: Seq<GroupView>, b: Seq<GroupView>, id: Seq<char>)
    requires
        extends(a, b),
        id_used(a, id),
    ensures
        id_used(b, id),
{
    let i = choose|i: int| 0 <= i < a.len() && (#[trigger] a[i]).id == id;
    assert(b.take(a.len() as int)[i] == b[i]);
}

pub proof fn lemma_find_some_used(gs: Seq<GroupView>, name: Seq<char>)
    requires
        find_group_by_name(gs, name) is Some,
    ensures
        id_used(gs, find_group_by_name(gs, name)->0),
        exists|i: int| 0 <= i < gs.len() && (#[trigger] gs[i]).name == name,
    decreases gs.len(),
{
    if gs[0].name != name {
        lemma_find_some_used(gs.drop_first(), name);
        let i = choose|i: int|
            0 <= i < gs.drop_first().len() && (#[trigger] gs.drop_first()[i]).id == find_group_by_name(
                gs,
                name,
            )->0;
        assert(gs[i + 1] == gs.drop_first()[i]);
        let j = choose|j: int| 0 <= j < gs.drop_first().len() && (#[trigger] gs.drop_first()[j]).name == name;
        assert(gs[j + 1] == gs.drop_first()[j]);
    } else {
        assert(gs[0].id == find_group_by_name(gs, name)->0);
    }
}

pub proof fn lemma_find_none_no_name(gs: Seq<GroupView>, name: Seq<char>)
    requires
        find_group_by_name(gs, name) is None,
    ensures
        forall|i: int| 0 <= i < gs.len() ==> (#[trigger] gs[i]).name != name,
    decreases gs.len(),
{
    if gs.len() > 0 {
        lemma_find_none_no_name(gs.drop_first(), name);
        assert forall|i: int| 0 <= i < gs.len() implies (#[trigger] gs[i]).name != name by {
            if i > 0 {
                assert(gs[i] == gs.drop_first()[i - 1]);
            }
        }
    }
}

pub proof fn lemma_find_extends(a: Seq<GroupView>, b: Seq<GroupView>, name: Seq<char>)
    requires
        extends(a, b),
        find_group_by_name(a, name) is Some,
    ensures
        find_group_by_name(b, name) == find_group_by_name(a, name),
    decreases a.len(),
{
    if a[0].name == name {
        assert(b[0] == a[0]) by {
            assert(b.take(a.len() as int)[0] == b[0]);
        }
    } else {
        assert(b[0] == a[0]) by {
            assert(b.take(a.len() as int)[0] == b[0]);
        }
        assert(b.drop_first().take(a.drop_first().len() as int) =~= a.drop_first()) by {
            assert forall|k: int| 0 <= k < a.drop_first().len() implies b.drop_first().take(
                a.drop_first().len() as int,
            )[k] == a.drop_first()[k] by {
                assert(b.take(a.len() as int)[k + 1] == b[k + 1]);
            }
        }
        lemma_find_extends(a.drop_first(), b.drop_first(), name);
    }
}

pub proof fn lemma_next_free_exists(gs: Seq<GroupView>, c: nat)
    ensures
        is_next_free(gs, c, next_free_index(gs, c)),
    decreases count_generated_from(gs, c),
{
    if !id_used(gs, generated_id(c)) {
        assert(is_next_free(gs, c, c));
    } else {
        lemma_count_step(gs, c);
        lemma_next_free_exists(gs, c + 1);
        let k = next_free_index(gs, c + 1);
        assert forall|j: nat| c <= j < k implies id_used(gs, #[trigger] generated_id(j)) by {
            if j > c {
                assert(c + 1 <= j < k);
            }
        }
        assert(is_next_free(gs, c, k));
    }
}

pub proof fn lemma_generated_id_trimmed(k: nat)
    ensures
        generated_id(k).len() > 0,
        crate::text::is_trimmed(generated_id(k)),
{
    reveal_strlit("group-");
    lemma_decimal_digits(k);
    let id = generated_id(k);
    assert(id[0] == 'g');
    assert(id.last() == decimal(k).last());
    assert(crate::text::is_ascii_digit_char(decimal(k)[decimal(k).len() - 1]));
}

pub proof fn lemma_default_group_literals()
    ensures
        default_group_id_spec().len() > 0,
        crate::text::is_trimmed(default_group_id_spec()),
        normalize_group_name_spec(default_group_name_spec()) == default_group_name_spec(),
{
    reveal_strlit("group-uncategorized");
    reveal_strlit("未分類");
    crate::text::lemma_trimmed_fixed(default_group_name_spec());
}

pub proof fn lemma_group_name_normalized(v: Seq<char>)
    ensures
        normalize_group_name_spec(normalize_group_name_spec(v)) == normalize_group_name_spec(v),
        normalize_group_name_spec(v).len() > 0,
{
    lemma_default_group_literals();
    crate::text::lemma_trim_is_trimmed(v);
    reveal_strlit("未分類");
}

/// Registering keeps the kept groups well formed, only appends to them, and
/// returns a kept id.
pub proof fn lemma_register_wf(g: GroupView, st: GroupState)
    requires
        groups_well_formed(st.groups),
    ensures
        groups_well_formed(register_spec(g, st).0.groups),
        extends(st.groups, register_spec(g, st).0.groups),
        id_used(register_spec(g, st).0.groups, register_spec(g, st).1),
{
    let ng = normalize_group_spec(g);
    let r = register_spec(g, st);
    lemma_group_name_normalized(g.name);
    crate::text::lemma_trim_is_trimmed(g.id);
    lemma_next_free_exists(st.groups, st.counter);
    let k = next_free_index(st.groups, st.counter);
    lemma_generated_id_trimmed(k);
    match find_group_by_name(st.groups, ng.name) {
        Some(existing) => {
            lemma_find_some_used(st.groups, ng.name);
            assert(st.groups.take(st.groups.len() as int) =~= st.groups);
        },
        None => {
            lemma_find_none_no_name(st.groups, ng.name);
            let ngs = r.0.groups;
            let last = ngs[ngs.len() - 1];
            assert(ngs.take(st.groups.len() as int) =~= st.groups);
            assert(!id_used(st.groups, last.id));
            assert forall|i: int, j: int| 0 <= i < j < ngs.len() implies (#[trigger] ngs[i]).id
                != (#[trigger] ngs[j]).id && ngs[i].name != ngs[j].name by {
                if j == ngs.len() - 1 {
                    assert(ngs[i] == st.groups[i]);
                } else {
                    assert(ngs[i] == st.groups[i]);
                    assert(ngs[j] == st.groups[j]);
                }
            }
            assert forall|i: int| 0 <= i < ngs.len() implies (#[trigger] ngs[i]).id.len() > 0
                && crate::text::is_trimmed(ngs[i].id) && normalize_group_name_spec(ngs[i].name)
                == ngs[i].name by {
                if i < st.groups.len() {
                    assert(ngs[i] == st.groups[i]);
                }
            }
            assert(ngs[ngs.len() - 1].id == r.1);
        },
    }
}

/// Registering a group that is already normalized, under an id and a name not
/// yet kept, appends it and leaves the counter alone.
pub proof fn lemma_register_fresh(g: GroupView, st: GroupState)
    requires
        g.id.len() > 0,
        crate::text::is_trimmed(g.id),
        normalize_group_name_spec(g.name) == g.name,
        !id_used(st.groups, g.id),
        forall|i: int| 0 <= i < st.groups.len() ==> (#[trigger] st.groups[i]).name != g.name,
    ensures
        register_spec(g, st).0 == (GroupState { groups: st.groups.push(g), counter: st.counter }),
{
    crate::text::lemma_trimmed_fixed(g.id);
    lemma_find_by_name_none(st.groups, g.name);
}

pub proof fn lemma_register_all_wf(gs: Seq<GroupView>, st: GroupState)
    requires
        groups_well_formed(st.groups),
    ensures
        groups_well_formed(register_all(gs, st).groups),
        extends(st.groups, register_all(gs, st).groups),
    decreases gs.len(),
{
    if gs.len() == 0 {
        assert(st.groups.take(st.groups.len() as int) =~= st.groups);
    } else {
        lemma_register_all_wf(gs.drop_last(), st);
        let mid = register_all(gs.drop_last(), st);
        lemma_register_wf(gs.last(), mid);
        let fin = register_all(gs, st);
        assert(fin.groups.take(st.groups.len() as int) =~= st.groups) by {
            assert forall|k: int| 0 <= k < st.groups.len() implies fin.groups.take(
                st.groups.len() as int,
            )[k] == st.groups[k] by {
                assert(fin.groups.take(mid.groups.len() as int)[k] == fin.groups[k]);
                assert(mid.groups.take(st.groups.len() as int)[k] == mid.groups[k]);
            }
        }
    }
}

/// Registering the groups of a well-formed list, starting from nothing, keeps
/// exactly that list and generates nothing.
pub proof fn lemma_register_all_fixed(gs: Seq<GroupView>)
    requires
        groups_well_formed(gs),
    ensures
        register_all(gs, GroupState { groups: Seq::empty(), counter: 1 }) == (GroupState {
            groups: gs,
            counter: 1,
        }),
    decreases gs.len(),
{
    let st0 = GroupState { groups: Seq::<GroupView>::empty(), counter: 1 };
    if gs.len() == 0 {
        assert(gs =~= Seq::<GroupView>::empty());
    } else {
        let pre = gs.drop_last();
        assert(groups_well_formed(pre)) by {
            assert forall|i: int| 0 <= i < pre.len() implies (#[trigger] pre[i]).id.len() > 0
                && crate::text::is_trimmed(pre[i].id) && normalize_group_name_spec(pre[i].name)
                == pre[i].name by {
                assert(pre[i] == gs[i]);
            }
            assert forall|i: int, j: int| 0 <= i < j < pre.len() implies (#[trigger] pre[i]).id
                != (#[trigger] pre[j]).id && pre[i].name != pre[j].name by {
                assert(pre[i] == gs[i]);
                assert(pre[j] == gs[j]);
            }
        }
        lemma_register_all_fixed(pre);
        let last = gs.last();
        assert(last == gs[gs.len() - 1]);
        assert(!id_used(pre, last.id)) by {
            if id_used(pre, last.id) {
                let i = choose|i: int| 0 <= i < pre.len() && (#[trigger] pre[i]).id == last.id;
                assert(pre[i] == gs[i]);
            }
        }
        assert forall|i: int| 0 <= i < pre.len() implies (#[trigger] pre[i]).name != last.name by {
            assert(pre[i] == gs[i]);
        }
        lemma_register_fresh(last, GroupState { groups: pre, counter: 1 });
        assert(pre.push(last) =~= gs);
    }
}

pub proof fn lemma_extends_trans(a: Seq<GroupView>, b: Seq<GroupView>, c: Seq<GroupView>)
    requires
        extends(a, b),
        extends(b, c),
    ensures
        extends(a, c),
{
    assert(c.take(a.len() as int) =~= a) by {
        assert forall|k: int| 0 <= k < a.len() implies c.take(a.len() as int)[k] == a[k] by {
            assert(c.take(b.len() as int)[k] == c[k]);
            assert(b.take(a.len() as int)[k] == b[k]);
        }
    }
}

pub proof fn lemma_resolved_extends(acts: Seq<ActionView>, a: Seq<GroupView>, b: Seq<GroupView>)
    requires
        all_resolved(acts, a),
        extends(a, b),
    ensures
        all_resolved(acts, b),
{
    assert forall|i: int| 0 <= i < acts.len() implies action_resolved(#[trigger] acts[i], b) by {
        if id_used(a, acts[i].group_id) {
            lemma_extends_used(a, b, acts[i].group_id);
        }
    }
}

/// Resolving an action keeps the groups well formed, only appends to them, and
/// resolves the action.
/// Appending groups keeps the default group covered.
pub proof fn lemma_covered_extends(a: Seq<GroupView>, b: Seq<GroupView>)
    requires
        extends(a, b),
        default_covered(a),
    ensures
        default_covered(b),
{
    if id_used(a, default_group_id_spec()) {
        lemma_extends_used(a, b, default_group_id_spec());
    } else {
        lemma_find_extends(a, b, default_group_name_spec());
    }
}

pub proof fn lemma_resolve_action(a: ActionView, st: GroupState)
    requires
        groups_well_formed(st.groups),
        default_covered(st.groups),
    ensures
        groups_well_formed(resolve_action_spec(a, st).0.groups),
        extends(st.groups, resolve_action_spec(a, st).0.groups),
        action_resolved(resolve_action_spec(a, st).1, resolve_action_spec(a, st).0.groups),
{
    let cur = trim_seq(a.group_id);
    assert(st.groups.take(st.groups.len() as int) =~= st.groups);
    if cur.len() > 0 && id_used(st.groups, cur) {
    } else if trim_seq(a.group).len() > 0 {
        let name = normalize_group_name_spec(a.group);
        match find_group_by_name(st.groups, name) {
            Some(existing) => {
                lemma_find_some_used(st.groups, name);
            },
            None => {
                lemma_register_wf(GroupView { id: Seq::empty(), name: name }, st);
            },
        }
    } else {
        if find_group_by_name(st.groups, default_group_name_spec()) is Some {
            lemma_find_some_used(st.groups, default_group_name_spec());
        }
    }
}

pub proof fn lemma_resolve_all(acts: Seq<ActionView>, st: GroupState)
    requires
        groups_well_formed(st.groups),
        default_covered(st.groups),
    ensures
        groups_well_formed(resolve_all(acts, st).0.groups),
        extends(st.groups, resolve_all(acts, st).0.groups),
        all_resolved(resolve_all(acts, st).1, resolve_all(acts, st).0.groups),
        resolve_all(acts, st).1.len() == acts.len(),
    decreases acts.len(),
{
    if acts.len() == 0 {
        assert(st.groups.take(st.groups.len() as int) =~= st.groups);
    } else {
        lemma_resolve_all(acts.drop_last(), st);
        let prev = resolve_all(acts.drop_last(), st);
        lemma_covered_extends(st.groups, prev.0.groups);
        lemma_resolve_action(acts.last(), prev.0);
        let step = resolve_action_spec(acts.last(), prev.0);
        lemma_extends_trans(st.groups, prev.0.groups, step.0.groups);
        lemma_resolved_extends(prev.1, prev.0.groups, step.0.groups);
        let out = prev.1.push(step.1);
        assert forall|i: int| 0 <= i < out.len() implies action_resolved(
            #[trigger] out[i],
            step.0.groups,
        ) by {
            if i < prev.1.len() {
                assert(out[i] == prev.1[i]);
            }
        }
    }
}

pub proof fn lemma_register_default(st: GroupState)
    requires
        groups_well_formed(st.groups),
    ensures
        groups_well_formed(register_default(st).groups),
        extends(st.groups, register_default(st).groups),
        default_covered(register_default(st).groups),
{
    assert(st.groups.take(st.groups.len() as int) =~= st.groups);
    if !id_used(st.groups, default_group_id_spec()) {
        let g = GroupView { id: default_group_id_spec(), name: default_group_name_spec() };
        lemma_register_wf(g, st);
        lemma_default_group_literals();
        crate::text::lemma_trimmed_fixed(default_group_id_spec());
        let ng = normalize_group_spec(g);
        assert(ng == g);
        match find_group_by_name(st.groups, default_group_name_spec()) {
            Some(_) => {},
            None => {
                let gs2 = register_default(st).groups;
                assert(gs2[gs2.len() - 1].id == default_group_id_spec());
            },
        }
    }
}

/// What normalizing groups and actions yields: well-formed groups, the default
/// group kept or named, every action resolved against the kept groups.
pub proof fn lemma_normalize_groups_output(groups: Seq<GroupView>, actions: Seq<ActionView>)
    ensures
        groups_well_formed(normalize_groups_spec(groups, actions).0),
        default_covered(normalize_groups_spec(groups, actions).0),
        all_resolved(normalize_groups_spec(groups, actions).1, normalize_groups_spec(groups, actions).0),
        normalize_groups_spec(groups, actions).1.len() == actions.len(),
{
    let st0 = GroupState { groups: Seq::<GroupView>::empty(), counter: 1 };
    lemma_register_all_wf(groups, st0);
    let st1a = register_all(groups, st0);
    lemma_register_default(st1a);
    let st1 = register_default(st1a);
    lemma_resolve_all(actions, st1);
    let res = resolve_all(actions, st1);
    if id_used(st1.groups, default_group_id_spec()) {
        lemma_extends_used(st1.groups, res.0.groups, default_group_id_spec());
    } else {
        lemma_find_extends(st1.groups, res.0.groups, default_group_name_spec());
    }
}

} // verus!

verus! {

/// Both actions agree on everything but their group fields.
pub open spec fn same_except_group(a: ActionView, b: ActionView) -> bool {
    b == (ActionView { group_id: b.group_id, group: b.group, ..a })
}

pub proof fn lemma_resolve_all_fields(acts: Seq<ActionView>, st: GroupState)
    ensures
        resolve_all(acts, st).1.len() == acts.len(),
        forall|i: int|
            0 <= i < acts.len() ==> same_except_group(
                acts[i],
                #[trigger] resolve_all(acts, st).1[i],
            ) && resolve_all(acts, st).1[i].group.len() == 0,
    decreases acts.len(),
{
    if acts.len() > 0 {
        lemma_resolve_all_fields(acts.drop_last(), st);
        let prev = resolve_all(acts.drop_last(), st);
        let out = resolve_all(acts, st).1;
        assert forall|i: int| 0 <= i < acts.len() implies same_except_group(
            acts[i],
            #[trigger] out[i],
        ) && out[i].group.len() == 0 by {
            if i < acts.len() - 1 {
                assert(out[i] == prev.1[i]);
                assert(acts.drop_last()[i] == acts[i]);
            }
        }
    }
}

/// Resolving actions that are already resolved against well-formed groups
/// changes neither the groups nor the actions.
pub proof fn lemma_resolve_all_fixed(acts: Seq<ActionView>, st: GroupState)
    requires
        groups_well_formed(st.groups),
        all_resolved(acts, st.groups),
    ensures
        resolve_all(acts, st) == (st, acts),
    decreases acts.len(),
{
    lemma_default_group_literals();
    if acts.len() == 0 {
        assert(acts =~= Seq::<ActionView>::empty());
    } else {
        let pre = acts.drop_last();
        assert(all_resolved(pre, st.groups)) by {
            assert forall|i: int| 0 <= i < pre.len() implies action_resolved(
                #[trigger] pre[i],
                st.groups,
            ) by {
                assert(pre[i] == acts[i]);
            }
        }
        lemma_resolve_all_fixed(pre, st);
        let a = acts.last();
        assert(action_resolved(acts[acts.len() - 1], st.groups));
        assert(a.group =~= Seq::<char>::empty());
        if id_used(st.groups, a.group_id) {
            let i = choose|i: int| 0 <= i < st.groups.len() && (#[trigger] st.groups[i]).id == a.group_id;
            assert(st.groups[i].id.len() > 0 && crate::text::is_trimmed(st.groups[i].id));
            crate::text::lemma_trimmed_fixed(a.group_id);
            assert(trim_seq(a.group_id) == a.group_id);
        } else {
            crate::text::lemma_trimmed_fixed(a.group_id);
            assert(trim_seq(a.group) =~= a.group);
        }
        assert(resolve_action_spec(a, st).1 == a);
        assert(pre.push(a) =~= acts);
    }
}

/// Normalizing the output of group normalization again changes nothing.
pub proof fn lemma_normalize_groups_fixed(gs: Seq<GroupView>, acts: Seq<ActionView>)
    requires
        groups_well_formed(gs),
        default_covered(gs),
        all_resolved(acts, gs),
    ensures
        normalize_groups_spec(gs, acts) == (gs, acts),
{
    lemma_register_all_fixed(gs);
    let st = GroupState { groups: gs, counter: 1 };
    lemma_default_group_literals();
    if !id_used(gs, default_group_id_spec()) {
        let g = GroupView { id: default_group_id_spec(), name: default_group_name_spec() };
        crate::text::lemma_trimmed_fixed(default_group_id_spec());
        assert(normalize_group_spec(g) == g);
        assert(register_default(st) == st);
    }
    lemma_resolve_all_fixed(acts, st);
}

pub proof fn lemma_wf_no_group_error(gs: Seq<GroupView>)
    requires
        groups_well_formed(gs),
    ensures
        crate::config::first_group_error(gs) is None,
    decreases gs.len(),
{
    if gs.len() > 0 {
        let pre = gs.drop_last();
        assert(groups_well_formed(pre)) by {
            assert forall|i: int| 0 <= i < pre.len() implies (#[trigger] pre[i]).id.len() > 0
                && crate::text::is_trimmed(pre[i].id) && normalize_group_name_spec(pre[i].name)
                == pre[i].name by {
                assert(pre[i] == gs[i]);
            }
            assert forall|i: int, j: int| 0 <= i < j < pre.len() implies (#[trigger] pre[i]).id
                != (#[trigger] pre[j]).id && pre[i].name != pre[j].name by {
                assert(pre[i] == gs[i]);
                assert(pre[j] == gs[j]);
            }
        }
        lemma_wf_no_group_error(pre);
        let i = gs.len() - 1;
        assert(gs[i].id.len() > 0);
        crate::text::lemma_trimmed_fixed(gs[i].id);
        assert(!exists|j: int| 0 <= j < i && gs[j].id == gs[i].id);
    }
}

pub proof fn lemma_covered_nonempty(gs: Seq<GroupView>)
    requires
        default_covered(gs),
    ensures
        gs.len() > 0,
{
    if !id_used(gs, default_group_id_spec()) {
        lemma_find_some_used(gs, default_group_name_spec());
    }
}

} // verus!
