use vstd::prelude::*;

use crate::actions::{action_key_for_action, action_key_spec, normalize_trigger_slot, slot_spec};
use crate::config::{
    config_error, copy_config, configs_equal, normalize_config_spec, opt_string_view,
    template_error, validation_message, Action, ActionView, Config, ConfigView, GestureTemplate,
    ValidationErrorView,
};
use crate::groups::actions_view;
use crate::text::{chars_of, decimal, eq_lit, push_chars, push_decimal, string_from};

verus! {

fn append_str(s: &mut String, t: &str)
    ensures
        final(s)@ == old(s)@ + t@,
{
    let c = chars_of(t);
    push_chars(s, c.as_slice());
}

// ---------------------------------------------------------------------------
// Adding, replacing and removing actions
// ---------------------------------------------------------------------------

/// `format!("{:?}", ..)` of an optional string: `None`, or `Some("...")` with
/// the text in Rust's debug escaping.
pub uninterp spec fn option_debug_text(o: Option<Seq<char>>) -> Seq<char>;

/// `<Option<String> as Debug>::fmt`, through `format!("{:?}", ..)`.  The
/// contract names the result only; the escaping rules are not restated.
#[verifier::external_body]
fn debug_text(o: &Option<String>) -> (s: String)
    ensures
        s@ == option_debug_text(opt_string_view(*o)),
{
    format!("{:?}", o)
}

/// Whether a new action takes the trigger of an existing one: two wheel
/// actions with the same wheel trigger, or two gesture actions with the same
/// slot and gesture.
pub open spec fn actions_conflict(existing: ActionView, new: ActionView) -> bool {
    if new.trigger_type == "wheel"@ && existing.trigger_type == "wheel"@ {
        existing.wheel_trigger == new.wheel_trigger
    } else if new.trigger_type == "gesture"@ && existing.trigger_type == "gesture"@ {
        slot_spec(existing.trigger_slot) == slot_spec(new.trigger_slot) && existing.gesture
            == new.gesture
    } else {
        false
    }
}

pub open spec fn has_conflict(acts: Seq<ActionView>, new: ActionView) -> bool {
    exists|i: int| 0 <= i < acts.len() && actions_conflict(#[trigger] acts[i], new)
}

/// The message for an action whose trigger is taken.
pub open spec fn conflict_message(a: ActionView) -> Seq<char> {
    if a.trigger_type == "wheel"@ {
        "Action for wheel trigger '"@ + option_debug_text(a.wheel_trigger) + "' already exists"@
    } else {
        "Action for trigger slot '"@ + slot_spec(a.trigger_slot) + "' and gesture '"@ + a.gesture
            + "' already exists"@
    }
}

fn conflicts(existing: &Action, new: &Action) -> (b: bool)
    ensures
        b == actions_conflict(existing@, new@),
{
    let nt = chars_of(new.trigger_type.as_str());
    let et = chars_of(existing.trigger_type.as_str());
    if eq_lit(nt.as_slice(), "wheel") && eq_lit(et.as_slice(), "wheel") {
        crate::config::opt_string_equal(&existing.wheel_trigger, &new.wheel_trigger)
    } else if eq_lit(nt.as_slice(), "gesture") && eq_lit(et.as_slice(), "gesture") {
        let s1 = chars_of(normalize_trigger_slot(existing.trigger_slot.as_str()));
        let s2 = chars_of(normalize_trigger_slot(new.trigger_slot.as_str()));
        crate::text::chars_eq(s1.as_slice(), s2.as_slice()) && existing.gesture == new.gesture
    } else {
        false
    }
}

/// Adds an action unless its trigger is already taken.
pub fn add_action(config: &mut Config, action: Action) -> (r: Result<(), String>)
    ensures
        match r {
            Ok(()) => !has_conflict(old(config)@.actions, action@) && final(config)@ == (ConfigView {
                actions: old(config)@.actions.push(action@),
                ..old(config)@
            }),
            Err(m) => has_conflict(old(config)@.actions, action@) && m@ == conflict_message(action@)
                && final(config)@ == old(config)@,
        },
{
    let ghost acts = old(config)@.actions;
    let n = config.actions.len();
    let mut i: usize = 0;
    while i < n
        invariant
            i <= n,
            n == config.actions@.len(),
            acts == config@.actions,
            forall|k: int| 0 <= k < i ==> !actions_conflict(#[trigger] acts[k], action@),
        decreases n - i,
    {
        assert(acts[i as int] == config.actions@[i as int]@);
        if conflicts(&config.actions[i], &action) {
            let nt = chars_of(action.trigger_type.as_str());
            if eq_lit(nt.as_slice(), "wheel") {
                let mut m = string_from("Action for wheel trigger '");
                let d = debug_text(&action.wheel_trigger);
                let dc = chars_of(d.as_str());
                push_chars(&mut m, dc.as_slice());
                append_str(&mut m, "' already exists");
                return Err(m);
            } else {
                let mut m = string_from("Action for trigger slot '");
                append_str(&mut m, normalize_trigger_slot(action.trigger_slot.as_str()));
                append_str(&mut m, "' and gesture '");
                let g = chars_of(action.gesture.as_str());
                push_chars(&mut m, g.as_slice());
                append_str(&mut m, "' already exists");
                return Err(m);
            }
        }
        i = i + 1;
    }
    let ghost a = action@;
    config.actions.push(action);
    assert(actions_view(config.actions@) =~= acts.push(a));
    Ok(())
}

/// The index of the first action with the given key.
pub open spec fn first_with_key(acts: Seq<ActionView>, key: Seq<char>) -> Option<int> {
    if exists|i: int| 0 <= i < acts.len() && action_key_spec(#[trigger] acts[i]) == key {
        Some(
            choose|i: int|
                0 <= i < acts.len() && action_key_spec(#[trigger] acts[i]) == key && forall|j: int|
                    0 <= j < i ==> action_key_spec(#[trigger] acts[j]) != key,
        )
    } else {
        None
    }
}

proof fn lemma_least_with_key(acts: Seq<ActionView>, key: Seq<char>, k: int)
    requires
        0 <= k < acts.len(),
        action_key_spec(acts[k]) == key,
    ensures
        exists|i: int|
            0 <= i <= k && action_key_spec(#[trigger] acts[i]) == key && forall|j: int|
                0 <= j < i ==> action_key_spec(#[trigger] acts[j]) != key,
    decreases k,
{
    if exists|j: int| 0 <= j < k && action_key_spec(#[trigger] acts[j]) == key {
        let j = choose|j: int| 0 <= j < k && action_key_spec(#[trigger] acts[j]) == key;
        lemma_least_with_key(acts, key, j);
    } else {
        assert(action_key_spec(acts[k]) == key);
    }
}

/// `first_with_key` is the least index of an action with the key, or `None`
/// when no action has it.
pub proof fn lemma_first_with_key(acts: Seq<ActionView>, key: Seq<char>)
    ensures
        match first_with_key(acts, key) {
            Some(i) => 0 <= i < acts.len() && action_key_spec(acts[i]) == key && forall|j: int|
                0 <= j < i ==> action_key_spec(#[trigger] acts[j]) != key,
            None => forall|j: int| 0 <= j < acts.len() ==> action_key_spec(#[trigger] acts[j]) != key,
        },
{
    if exists|i: int| 0 <= i < acts.len() && action_key_spec(#[trigger] acts[i]) == key {
        let k = choose|i: int| 0 <= i < acts.len() && action_key_spec(#[trigger] acts[i]) == key;
        lemma_least_with_key(acts, key, k);
    }
}

/// Replaces the first action with the given key.
pub fn update_action(config: &mut Config, action_key: &str, action: Action) -> (r: Result<(), String>)
    ensures
        match r {
            Ok(()) => exists|i: int|
                first_with_key(old(config)@.actions, action_key@) == Some(i) && final(config)@ == (
                ConfigView { actions: old(config)@.actions.update(i, action@), ..old(config)@ }),
            Err(m) => first_with_key(old(config)@.actions, action_key@) is None && m@ == "Action '"@
                + action_key@ + "' not found"@ && final(config)@ == old(config)@,
        },
{
    let ghost acts = old(config)@.actions;
    let n = config.actions.len();
    let mut i: usize = 0;
    while i < n
        invariant
            i <= n,
            n == config.actions@.len(),
            acts == config@.actions,
            *config == *old(config),
            forall|k: int| 0 <= k < i ==> action_key_spec(#[trigger] acts[k]) != action_key@,
        decreases n - i,
    {
        assert(acts[i as int] == config.actions@[i as int]@);
        if crate::actions::is_matching_action_key(&config.actions[i], action_key) {
            proof {
                let k = i as int;
                let c = choose|c: int|
                    0 <= c < acts.len() && action_key_spec(#[trigger] acts[c]) == action_key@
                        && forall|j: int| 0 <= j < c ==> action_key_spec(#[trigger] acts[j]) != action_key@;
                assert(c == k) by {
                    if c < k {
                        assert(action_key_spec(acts[c]) != action_key@);
                    }
                    if k < c {
                        assert(action_key_spec(acts[k]) != action_key@);
                    }
                }
            }
            let ghost a = action@;
            config.actions.set(i, action);
            assert(actions_view(config.actions@) =~= acts.update(i as int, a));
            return Ok(());
        }
        i = i + 1;
    }
    let mut m = string_from("Action '");
    append_str(&mut m, action_key);
    append_str(&mut m, "' not found");
    Err(m)
}

/// The actions whose key differs from `key`.
pub open spec fn actions_without_key(acts: Seq<ActionView>, key: Seq<char>) -> Seq<ActionView>
    decreases acts.len(),
{
    if acts.len() == 0 {
        Seq::empty()
    } else if action_key_spec(acts.last()) != key {
        actions_without_key(acts.drop_last(), key).push(acts.last())
    } else {
        actions_without_key(acts.drop_last(), key)
    }
}

/// Removes every action with the given key.
pub fn delete_action(config: &mut Config, action_key: &str)
    ensures
        final(config)@ == (ConfigView {
            actions: actions_without_key(old(config)@.actions, action_key@),
            ..old(config)@
        }),
{
    let mut old_actions: Vec<Action> = Vec::new();
    std::mem::swap(&mut old_actions, &mut config.actions);
    let ghost acts = actions_view(old_actions@);
    let mut kept: Vec<Action> = Vec::new();
    for a in it: old_actions.into_iter()
        invariant
            it.seq() == old_actions@,
            acts == actions_view(old_actions@),
            actions_view(kept@) == actions_without_key(acts.take(it.index() as int), action_key@),
    {
        let ghost k = it.index();
        assert(a == old_actions@[k as int]);
        assert(acts.take(k + 1).drop_last() =~= acts.take(k as int));
        assert(acts.take(k + 1).last() == a@);
        if !crate::actions::is_matching_action_key(&a, action_key) {
            let ghost prev = actions_view(kept@);
            let ghost av = a@;
            kept.push(a);
            assert(actions_view(kept@) =~= prev.push(av));
        }
    }
    assert(acts.take(acts.len() as int) =~= acts);
    config.actions = kept;
}

// ---------------------------------------------------------------------------
// Adding, replacing and removing gesture templates
// ---------------------------------------------------------------------------

pub open spec fn has_template_named<P>(gs: Seq<GestureTemplate<P>>, name: Seq<char>) -> bool {
    exists|i: int| 0 <= i < gs.len() && (#[trigger] gs[i]).name@ == name
}

fn find_template<P>(gs: &Vec<GestureTemplate<P>>, name: &String) -> (r: Option<usize>)
    ensures
        match r {
            Some(i) => i < gs@.len() && gs@[i as int].name@ == name@ && forall|j: int|
                0 <= j < i ==> (#[trigger] gs@[j]).name@ != name@,
            None => !has_template_named(gs@, name@),
        },
{
    let n = gs.len();
    let mut i: usize = 0;
    while i < n
        invariant
            i <= n,
            n == gs@.len(),
            forall|j: int| 0 <= j < i ==> (#[trigger] gs@[j]).name@ != name@,
        decreases n - i,
    {
        if gs[i].name == *name {
            return Some(i);
        }
        i = i + 1;
    }
    None
}

/// Adds a gesture template unless one with that name exists.
pub fn save_gesture<P>(gestures: &mut Vec<GestureTemplate<P>>, name: String, points: Vec<P>) -> (r: Result<(), String>)
    ensures
        match r {
            Ok(()) => !has_template_named(old(gestures)@, name@) && final(gestures)@
                == old(gestures)@.push(GestureTemplate { name: name, points: points }),
            Err(m) => has_template_named(old(gestures)@, name@) && m@ == "Gesture '"@ + name@
                + "' already exists"@ && final(gestures)@ == old(gestures)@,
        },
{
    if find_template(gestures, &name).is_some() {
        let mut m = string_from("Gesture '");
        let nc = chars_of(name.as_str());
        push_chars(&mut m, nc.as_slice());
        append_str(&mut m, "' already exists");
        return Err(m);
    }
    gestures.push(GestureTemplate { name: name, points: points });
    Ok(())
}

/// Renames and replaces the first gesture template named `old_name`; the new
/// name must not be taken by another template.
pub fn update_gesture<P>(gestures: &mut Vec<GestureTemplate<P>>, old_name: String, new_name: String, points: Vec<P>) -> (r: Result<(), String>)
    ensures
        match r {
            Ok(()) => exists|i: int|
                0 <= i < old(gestures)@.len() && old(gestures)@[i].name@ == old_name@ && (forall|j: int|
                    0 <= j < i ==> (#[trigger] old(gestures)@[j]).name@ != old_name@) && (old_name@
                    == new_name@ || !has_template_named(old(gestures)@, new_name@))
                    && final(gestures)@ == old(gestures)@.update(
                    i,
                    GestureTemplate { name: new_name, points: points },
                ),
            Err(m) => final(gestures)@ == old(gestures)@ && if old_name@ != new_name@
                && has_template_named(old(gestures)@, new_name@) {
                m@ == "Gesture '"@ + new_name@ + "' already exists"@
            } else {
                !has_template_named(old(gestures)@, old_name@) && m@ == "Gesture '"@ + old_name@
                    + "' not found"@
            },
        },
{
    if old_name != new_name && find_template(gestures, &new_name).is_some() {
        let mut m = string_from("Gesture '");
        let nc = chars_of(new_name.as_str());
        push_chars(&mut m, nc.as_slice());
        append_str(&mut m, "' already exists");
        return Err(m);
    }
    match find_template(gestures, &old_name) {
        Some(i) => {
            gestures.set(i, GestureTemplate { name: new_name, points: points });
            Ok(())
        },
        None => {
            let mut m = string_from("Gesture '");
            let nc = chars_of(old_name.as_str());
            push_chars(&mut m, nc.as_slice());
            append_str(&mut m, "' not found");
            Err(m)
        },
    }
}

/// The templates whose name differs from `name`.
pub open spec fn templates_without_name<P>(gs: Seq<GestureTemplate<P>>, name: Seq<char>) -> Seq<GestureTemplate<P>>
    decreases gs.len(),
{
    if gs.len() == 0 {
        Seq::empty()
    } else if gs.last().name@ != name {
        templates_without_name(gs.drop_last(), name).push(gs.last())
    } else {
        templates_without_name(gs.drop_last(), name)
    }
}

/// Removes every gesture template with the given name.
pub fn delete_gesture<P>(gestures: &mut Vec<GestureTemplate<P>>, name: &String)
    ensures
        final(gestures)@ == templates_without_name(old(gestures)@, name@),
{
    let mut old_list: Vec<GestureTemplate<P>> = Vec::new();
    std::mem::swap(&mut old_list, gestures);
    let ghost gs = old_list@;
    let mut kept: Vec<GestureTemplate<P>> = Vec::new();
    for g in it: old_list.into_iter()
        invariant
            it.seq() == gs,
            kept@ == templates_without_name(gs.take(it.index() as int), name@),
    {
        let ghost k = it.index();
        assert(gs.take(k + 1).drop_last() =~= gs.take(k as int));
        assert(gs.take(k + 1).last() == g);
        if g.name != *name {
            kept.push(g);
        }
    }
    assert(gs.take(gs.len() as int) =~= gs);
    *gestures = kept;
}

} // verus!

verus! {

// ---------------------------------------------------------------------------
// What the list operations keep
// ---------------------------------------------------------------------------

/// No two actions take the same trigger.
pub open spec fn triggers_distinct(acts: Seq<ActionView>) -> bool {
    forall|i: int, j: int|
        0 <= i < j < acts.len() ==> !actions_conflict(#[trigger] acts[i], #[trigger] acts[j])
}

/// Every action kept by `actions_without_key` comes from the list.
proof fn lemma_without_key_from(acts: Seq<ActionView>, key: Seq<char>, i: int)
    requires
        0 <= i < actions_without_key(acts, key).len(),
    ensures
        exists|p: int| 0 <= p < acts.len() && acts[p] == actions_without_key(acts, key)[i],
    decreases acts.len(),
{
    let rest = actions_without_key(acts.drop_last(), key);
    if action_key_spec(acts.last()) != key && i == rest.len() {
        assert(acts[acts.len() - 1] == actions_without_key(acts, key)[i]);
    } else {
        lemma_without_key_from(acts.drop_last(), key, i);
        let p = choose|p: int| 0 <= p < acts.drop_last().len() && acts.drop_last()[p] == rest[i];
        assert(acts[p] == actions_without_key(acts, key)[i]);
    }
}

/// Removing the actions of a key keeps the triggers distinct, and no action
/// of that key is left.
proof fn lemma_without_key(acts: Seq<ActionView>, key: Seq<char>)
    ensures
        triggers_distinct(acts) ==> triggers_distinct(actions_without_key(acts, key)),
        forall|i: int|
            0 <= i < actions_without_key(acts, key).len() ==> action_key_spec(
                #[trigger] actions_without_key(acts, key)[i],
            ) != key,
    decreases acts.len(),
{
    if acts.len() > 0 {
        let init = acts.drop_last();
        lemma_without_key(init, key);
        let rest = actions_without_key(init, key);
        if action_key_spec(acts.last()) != key {
            let r = rest.push(acts.last());
            assert(r == actions_without_key(acts, key));
            if triggers_distinct(acts) {
                assert(triggers_distinct(init));
                assert forall|i: int, j: int| 0 <= i < j < r.len() implies !actions_conflict(
                    #[trigger] r[i],
                    #[trigger] r[j],
                ) by {
                    if j == rest.len() {
                        lemma_without_key_from(init, key, i);
                        let p = choose|p: int| 0 <= p < init.len() && init[p] == rest[i];
                        assert(acts[p] == r[i]);
                        assert(acts[acts.len() - 1] == r[j]);
                    } else {
                        assert(r[i] == rest[i] && r[j] == rest[j]);
                    }
                }
            }
        }
    }
}

/// Adding an action never gives two actions the same trigger, and deleting
/// the actions of a key leaves none of that key and keeps the triggers
/// distinct: starting from a list whose triggers are distinct, the list after
/// a successful `add_action` (the list with the new action appended, when it
/// takes no existing trigger) and after `delete_action` still has distinct
/// triggers.
pub proof fn law_action_triggers_stay_distinct(acts: Seq<ActionView>, new: ActionView, key: Seq<char>)
    requires
        triggers_distinct(acts),
    ensures
        !has_conflict(acts, new) ==> triggers_distinct(acts.push(new)),
        triggers_distinct(actions_without_key(acts, key)),
        forall|i: int|
            0 <= i < actions_without_key(acts, key).len() ==> action_key_spec(
                #[trigger] actions_without_key(acts, key)[i],
            ) != key,
{
    if !has_conflict(acts, new) {
        let r = acts.push(new);
        assert forall|i: int, j: int| 0 <= i < j < r.len() implies !actions_conflict(
            #[trigger] r[i],
            #[trigger] r[j],
        ) by {
            if j == acts.len() {
                assert(r[i] == acts[i]);
                assert(!actions_conflict(acts[i], new));
            } else {
                assert(r[i] == acts[i] && r[j] == acts[j]);
            }
        }
    }
    lemma_without_key(acts, key);
}

/// No two gesture templates share a name.
pub open spec fn template_names_unique<P>(gs: Seq<GestureTemplate<P>>) -> bool {
    forall|i: int, j: int| 0 <= i < j < gs.len() ==> (#[trigger] gs[i]).name@ != (#[trigger] gs[j]).name@
}

/// Every template kept by `templates_without_name` comes from the list.
proof fn lemma_without_name_from<P>(gs: Seq<GestureTemplate<P>>, name: Seq<char>, i: int)
    requires
        0 <= i < templates_without_name(gs, name).len(),
    ensures
        exists|p: int| 0 <= p < gs.len() && gs[p] == templates_without_name(gs, name)[i],
    decreases gs.len(),
{
    let rest = templates_without_name(gs.drop_last(), name);
    if gs.last().name@ != name && i == rest.len() {
        assert(gs[gs.len() - 1] == templates_without_name(gs, name)[i]);
    } else {
        lemma_without_name_from(gs.drop_last(), name, i);
        let p = choose|p: int| 0 <= p < gs.drop_last().len() && gs.drop_last()[p] == rest[i];
        assert(gs[p] == templates_without_name(gs, name)[i]);
    }
}

proof fn lemma_without_name_unique<P>(gs: Seq<GestureTemplate<P>>, name: Seq<char>)
    requires
        template_names_unique(gs),
    ensures
        template_names_unique(templates_without_name(gs, name)),
    decreases gs.len(),
{
    if gs.len() > 0 {
        let init = gs.drop_last();
        assert(template_names_unique(init));
        lemma_without_name_unique(init, name);
        let rest = templates_without_name(init, name);
        if gs.last().name@ != name {
            let r = rest.push(gs.last());
            assert forall|i: int, j: int| 0 <= i < j < r.len() implies (#[trigger] r[i]).name@
                != (#[trigger] r[j]).name@ by {
                if j == rest.len() {
                    lemma_without_name_from(init, name, i);
                    let p = choose|p: int| 0 <= p < init.len() && init[p] == rest[i];
                    assert(gs[p] == r[i]);
                    assert(gs[gs.len() - 1] == r[j]);
                } else {
                    assert(r[i] == rest[i] && r[j] == rest[j]);
                }
            }
        }
    }
}

/// Saving, renaming and deleting gesture templates keep template names
/// distinct: from a list with distinct names, appending a template whose name
/// is not taken (a successful `save_gesture`), replacing template `i` by one
/// that keeps its name or takes a free one (a successful `update_gesture`),
/// and removing the templates of a name (`delete_gesture`) give lists with
/// distinct names.
pub proof fn law_template_names_stay_unique<P>(
    gs: Seq<GestureTemplate<P>>,
    t: GestureTemplate<P>,
    i: int,
    name: Seq<char>,
)
    requires
        template_names_unique(gs),
    ensures
        !has_template_named(gs, t.name@) ==> template_names_unique(gs.push(t)),
        0 <= i < gs.len() && (gs[i].name@ == t.name@ || !has_template_named(gs, t.name@))
            ==> template_names_unique(gs.update(i, t)),
        template_names_unique(templates_without_name(gs, name)),
{
    if !has_template_named(gs, t.name@) {
        let r = gs.push(t);
        assert forall|a: int, b: int| 0 <= a < b < r.len() implies (#[trigger] r[a]).name@
            != (#[trigger] r[b]).name@ by {
            if b == gs.len() {
                assert(r[a] == gs[a]);
            } else {
                assert(r[a] == gs[a] && r[b] == gs[b]);
            }
        }
    }
    if 0 <= i < gs.len() && (gs[i].name@ == t.name@ || !has_template_named(gs, t.name@)) {
        let r = gs.update(i, t);
        assert forall|a: int, b: int| 0 <= a < b < r.len() implies (#[trigger] r[a]).name@
            != (#[trigger] r[b]).name@ by {
            if a == i {
                assert(r[b] == gs[b]);
            } else if b == i {
                assert(r[a] == gs[a]);
            } else {
                assert(r[a] == gs[a] && r[b] == gs[b]);
            }
        }
    }
    lemma_without_name_unique(gs, name);
}

} // verus!

verus! {

/// Which new actions take an existing trigger: a new wheel action exactly when
/// some wheel action has the same wheel trigger, a new gesture action exactly
/// when some gesture action has the same slot (after slot normalization) and
/// the same gesture name, and an action of any other trigger type never.  In
/// particular two gesture actions with different gesture names never
/// conflict, so `add_action` appends such an action.
pub proof fn law_conflicting_triggers(acts: Seq<ActionView>, new: ActionView)
    ensures
        has_conflict(acts, new) <==> exists|i: int|
            0 <= i < acts.len() && ({
                ||| new.trigger_type == "wheel"@ && (#[trigger] acts[i]).trigger_type == "wheel"@
                    && acts[i].wheel_trigger == new.wheel_trigger
                ||| new.trigger_type == "gesture"@ && acts[i].trigger_type == "gesture"@
                    && slot_spec(acts[i].trigger_slot) == slot_spec(new.trigger_slot)
                    && acts[i].gesture == new.gesture
            }),
{
    reveal_strlit("wheel");
    reveal_strlit("gesture");
    assert("wheel"@[0] != "gesture"@[0]);
    assert forall|i: int| 0 <= i < acts.len() implies actions_conflict(#[trigger] acts[i], new) == ({
        ||| new.trigger_type == "wheel"@ && acts[i].trigger_type == "wheel"@
            && acts[i].wheel_trigger == new.wheel_trigger
        ||| new.trigger_type == "gesture"@ && acts[i].trigger_type == "gesture"@
            && slot_spec(acts[i].trigger_slot) == slot_spec(new.trigger_slot)
            && acts[i].gesture == new.gesture
    }) by {}
}

} // verus!
