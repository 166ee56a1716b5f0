use vstd::prelude::*;

use crate::config::{Action, ActionView, Config, ConfigView};
use crate::text::{chars_of, eq_lit, push_chars, string_from, trim_chars, trim_seq};

verus! {

// ---------------------------------------------------------------------------
// Trigger slots
// ---------------------------------------------------------------------------

/// The slot a slot name stands for: `B` and `C` are themselves, anything else
/// is `A`.
pub open spec fn slot_spec(s: Seq<char>) -> Seq<char> {
    if s == "B"@ {
        "B"@
    } else if s == "C"@ {
        "C"@
    } else {
        "A"@
    }
}

/// The slot a slot name stands for (`B`, `C`, or `A` for anything else).
pub fn normalize_trigger_slot(slot: &str) -> (r: &'static str)
    ensures
        r@ == slot_spec(slot@),
{
    let s = chars_of(slot);
    if eq_lit(s.as_slice(), "B") {
        "B"
    } else if eq_lit(s.as_slice(), "C") {
        "C"
    } else {
        "A"
    }
}

/// The trajectory color of a slot.
pub open spec fn color_for_slot_spec(c: ConfigView, slot: Seq<char>) -> Seq<char> {
    if slot_spec(slot) == "B"@ {
        c.trigger_b_color
    } else if slot_spec(slot) == "C"@ {
        c.trigger_c_color
    } else {
        c.trigger_a_color
    }
}

/// The binding of a slot.
pub open spec fn trigger_for_slot_spec(c: ConfigView, slot: Seq<char>) -> Seq<char> {
    if slot_spec(slot) == "B"@ {
        c.trigger_b
    } else if slot_spec(slot) == "C"@ {
        c.trigger_c
    } else {
        c.trigger_a
    }
}

/// The trajectory color configured for a slot.
pub fn color_for_trigger_slot<'a>(config: &'a Config, trigger_slot: &str) -> (r: &'a str)
    ensures
        r@ == color_for_slot_spec(config@, trigger_slot@),
{
    let s = chars_of(normalize_trigger_slot(trigger_slot));
    if eq_lit(s.as_slice(), "B") {
        config.triggerBColor.as_str()
    } else if eq_lit(s.as_slice(), "C") {
        config.triggerCColor.as_str()
    } else {
        config.triggerAColor.as_str()
    }
}

/// The binding configured for a slot.
pub fn trigger_button_for_slot<'a>(config: &'a Config, trigger_slot: &str) -> (r: &'a str)
    ensures
        r@ == trigger_for_slot_spec(config@, trigger_slot@),
{
    let s = chars_of(normalize_trigger_slot(trigger_slot));
    if eq_lit(s.as_slice(), "B") {
        config.triggerB.as_str()
    } else if eq_lit(s.as_slice(), "C") {
        config.triggerC.as_str()
    } else {
        config.triggerA.as_str()
    }
}

// ---------------------------------------------------------------------------
// Action keys and lookup
// ---------------------------------------------------------------------------

/// The key that identifies an action: `wheel:<wheel trigger>` for a wheel
/// action, `gesture:<slot>:<gesture>` for any other.
pub open spec fn action_key_spec(a: ActionView) -> Seq<char> {
    if a.trigger_type == "wheel"@ {
        "wheel:"@ + match a.wheel_trigger {
            Some(w) => w,
            None => Seq::empty(),
        }
    } else {
        "gesture:"@ + slot_spec(a.trigger_slot) + ":"@ + a.gesture
    }
}

/// The key that identifies an action.
pub fn action_key_for_action(action: &Action) -> (s: String)
    ensures
        s@ == action_key_spec(action@),
{
    let tt = chars_of(action.trigger_type.as_str());
    if eq_lit(tt.as_slice(), "wheel") {
        let mut s = string_from("wheel:");
        match &action.wheel_trigger {
            Some(w) => {
                let wc = chars_of(w.as_str());
                push_chars(&mut s, wc.as_slice());
            },
            None => {
                assert(s@ =~= "wheel:"@ + Seq::<char>::empty());
            },
        }
        return s;
    }
    let mut s = string_from("gesture:");
    let slot = chars_of(normalize_trigger_slot(action.trigger_slot.as_str()));
    push_chars(&mut s, slot.as_slice());
    let colon = chars_of(":");
    push_chars(&mut s, colon.as_slice());
    let g = chars_of(action.gesture.as_str());
    push_chars(&mut s, g.as_slice());
    s
}

/// Whether the action has the given key.
pub fn is_matching_action_key(action: &Action, action_key: &str) -> (b: bool)
    ensures
        b == (action_key_spec(action@) == action_key@),
{
    let k = action_key_for_action(action);
    let kc = chars_of(k.as_str());
    eq_lit(kc.as_slice(), action_key)
}

/// A gesture action (an empty trigger type counts as gesture) of the slot for
/// the gesture.
pub open spec fn gesture_action_matches(a: ActionView, slot: Seq<char>, gesture: Seq<char>) -> bool {
    &&& (a.trigger_type.len() == 0 || a.trigger_type == "gesture"@)
    &&& slot_spec(a.trigger_slot) == slot_spec(slot)
    &&& a.gesture == gesture
}

/// The index of the first gesture action of the slot for the gesture.
pub open spec fn first_gesture_action(acts: Seq<ActionView>, slot: Seq<char>, gesture: Seq<char>) -> Option<int> {
    if exists|i: int| 0 <= i < acts.len() && gesture_action_matches(#[trigger] acts[i], slot, gesture) {
        Some(
            choose|i: int|
                0 <= i < acts.len() && gesture_action_matches(#[trigger] acts[i], slot, gesture)
                    && forall|j: int| 0 <= j < i ==> !gesture_action_matches(#[trigger] acts[j], slot, gesture),
        )
    } else {
        None
    }
}

/// A matching index at or below `k` that no earlier index matches.
proof fn lemma_least_gesture_action(acts: Seq<ActionView>, slot: Seq<char>, gesture: Seq<char>, k: int)
    requires
        0 <= k < acts.len(),
        gesture_action_matches(acts[k], slot, gesture),
    ensures
        exists|i: int|
            0 <= i <= k && gesture_action_matches(#[trigger] acts[i], slot, gesture) && forall|j: int|
                0 <= j < i ==> !gesture_action_matches(#[trigger] acts[j], slot, gesture),
    decreases k,
{
    if exists|j: int| 0 <= j < k && gesture_action_matches(#[trigger] acts[j], slot, gesture) {
        let j = choose|j: int| 0 <= j < k && gesture_action_matches(#[trigger] acts[j], slot, gesture);
        lemma_least_gesture_action(acts, slot, gesture, j);
    } else {
        assert(gesture_action_matches(acts[k], slot, gesture));
    }
}

/// `first_gesture_action` is the least index of a matching action, or `None`
/// when no action matches.
pub proof fn lemma_first_gesture_action(acts: Seq<ActionView>, slot: Seq<char>, gesture: Seq<char>)
    ensures
        match first_gesture_action(acts, slot, gesture) {
            Some(i) => 0 <= i < acts.len() && gesture_action_matches(acts[i], slot, gesture)
                && forall|j: int| 0 <= j < i ==> !gesture_action_matches(#[trigger] acts[j], slot, gesture),
            None => forall|j: int|
                0 <= j < acts.len() ==> !gesture_action_matches(#[trigger] acts[j], slot, gesture),
        },
{
    if exists|i: int| 0 <= i < acts.len() && gesture_action_matches(#[trigger] acts[i], slot, gesture) {
        let k = choose|i: int| 0 <= i < acts.len() && gesture_action_matches(#[trigger] acts[i], slot, gesture);
        lemma_least_gesture_action(acts, slot, gesture, k);
    }
}

/// The first gesture action of the slot for the gesture, in list order.
pub fn find_action_for_gesture<'a>(config: &'a Config, trigger_slot: &str, gesture_name: &str) -> (r: Option<&'a Action>)
    ensures
        match r {
            Some(a) => exists|i: int|
                first_gesture_action(config@.actions, trigger_slot@, gesture_name@) == Some(i)
                    && *a == config.actions@[i],
            None => first_gesture_action(config@.actions, trigger_slot@, gesture_name@) is None,
        },
{
    match gesture_action_index(config, trigger_slot, gesture_name) {
        Some(i) => Some(&config.actions[i]),
        None => None,
    }
}

/// The position of the first gesture action of the slot for the gesture.
pub fn gesture_action_index(config: &Config, trigger_slot: &str, gesture_name: &str) -> (r: Option<usize>)
    ensures
        match r {
            Some(i) => first_gesture_action(config@.actions, trigger_slot@, gesture_name@) == Some(
                i as int,
            ) && i < config.actions@.len(),
            None => first_gesture_action(config@.actions, trigger_slot@, gesture_name@) is None,
        },
{
    let ghost acts = config@.actions;
    let slot = chars_of(normalize_trigger_slot(trigger_slot));
    let n = config.actions.len();
    let mut i: usize = 0;
    while i < n
        invariant
            i <= n,
            n == config.actions@.len(),
            acts == config@.actions,
            slot@ == slot_spec(trigger_slot@),
            forall|j: int| 0 <= j < i ==> !gesture_action_matches(#[trigger] acts[j], trigger_slot@, gesture_name@),
        decreases n - i,
    {
        let a = &config.actions[i];
        assert(acts[i as int] == a@);
        let tt = chars_of(a.trigger_type.as_str());
        let slot_a = chars_of(normalize_trigger_slot(a.trigger_slot.as_str()));
        let g = chars_of(a.gesture.as_str());
        if (tt.len() == 0 || eq_lit(tt.as_slice(), "gesture")) && crate::text::chars_eq(
            slot_a.as_slice(),
            slot.as_slice(),
        ) && eq_lit(g.as_slice(), gesture_name) {
            proof {
                let k = i as int;
                assert(gesture_action_matches(acts[k], trigger_slot@, gesture_name@));
                let c = choose|c: int|
                    0 <= c < acts.len() && gesture_action_matches(#[trigger] acts[c], trigger_slot@, gesture_name@)
                        && forall|j: int| 0 <= j < c ==> !gesture_action_matches(#[trigger] acts[j], trigger_slot@, gesture_name@);
                assert(c == k) by {
                    if c < k {
                        assert(!gesture_action_matches(acts[c], trigger_slot@, gesture_name@));
                    }
                    if k < c {
                        assert(!gesture_action_matches(acts[k], trigger_slot@, gesture_name@));
                    }
                }
            }
            return Some(i);
        }
        i = i + 1;
    }
    None
}

/// The event reported to the settings window when a gesture was recognized.
pub struct GestureEvent {
    pub name: String,
    pub action_type: Option<String>,
}

// ---------------------------------------------------------------------------
// Action labels
// ---------------------------------------------------------------------------

/// The label of an action type.
pub open spec fn action_type_label_spec(t: Seq<char>) -> Seq<char> {
    if t == "keystroke"@ {
        "ホットキー"@
    } else if t == "command"@ {
        "コマンド"@
    } else if t == "url"@ {
        "URL"@
    } else if t == "window_operation"@ {
        "ウィンドウ操作"@
    } else {
        "アクション"@
    }
}

/// The label of an action type.
pub fn action_type_label(action_type: &str) -> (r: &'static str)
    ensures
        r@ == action_type_label_spec(action_type@),
{
    let t = chars_of(action_type);
    let t = t.as_slice();
    if eq_lit(t, "keystroke") {
        "ホットキー"
    } else if eq_lit(t, "command") {
        "コマンド"
    } else if eq_lit(t, "url") {
        "URL"
    } else if eq_lit(t, "window_operation") {
        "ウィンドウ操作"
    } else {
        "アクション"
    }
}

/// The parts joined with `+` between them.
pub open spec fn join_plus(ps: Seq<Seq<char>>) -> Seq<char>
    decreases ps.len(),
{
    if ps.len() == 0 {
        Seq::empty()
    } else if ps.len() == 1 {
        ps[0]
    } else {
        join_plus(ps.drop_last()) + "+"@ + ps.last()
    }
}

/// The non-blank modifiers, trimmed.
pub open spec fn trimmed_modifiers(ms: Seq<Seq<char>>) -> Seq<Seq<char>>
    decreases ms.len(),
{
    if ms.len() == 0 {
        Seq::empty()
    } else if trim_seq(ms.last()).len() > 0 {
        trimmed_modifiers(ms.drop_last()).push(trim_seq(ms.last()))
    } else {
        trimmed_modifiers(ms.drop_last())
    }
}

/// A trimmed text when it is not blank.
pub open spec fn non_blank(o: Option<Seq<char>>) -> Option<Seq<char>> {
    match o {
        Some(s) => if trim_seq(s).len() > 0 {
            Some(trim_seq(s))
        } else {
            None
        },
        None => None,
    }
}

/// The detail line of an action: the key combination of a keystroke, the
/// command, the URL, or the window operation in words.
pub open spec fn action_detail_spec(a: ActionView) -> Option<Seq<char>> {
    if a.action_type == "keystroke"@ {
        match non_blank(a.keystroke) {
            Some(key) => Some(
                join_plus(
                    match a.modifiers {
                        Some(ms) => trimmed_modifiers(ms),
                        None => Seq::empty(),
                    }.push(key),
                ),
            ),
            None => None,
        }
    } else if a.action_type == "command"@ {
        non_blank(a.command)
    } else if a.action_type == "url"@ {
        non_blank(a.url)
    } else if a.action_type == "window_operation"@ {
        if a.operation == Some("minimize"@) {
            Some("最小化"@)
        } else if a.operation == Some("maximize"@) {
            Some("最大化"@)
        } else if a.operation == Some("close"@) {
            Some("閉じる"@)
        } else {
            None
        }
    } else {
        None
    }
}

fn non_blank_exec(o: &Option<String>) -> (r: Option<String>)
    ensures
        match r {
            Some(s) => non_blank(crate::config::opt_string_view(*o)) == Some(s@),
            None => non_blank(crate::config::opt_string_view(*o)) is None,
        },
{
    match o {
        Some(s) => {
            let v = chars_of(s.as_str());
            let t = trim_chars(v.as_slice());
            if t.len() > 0 {
                Some(crate::text::string_of(t.as_slice()))
            } else {
                None
            }
        },
        None => None,
    }
}

fn op_is(o: &Option<String>, lit: &str) -> (b: bool)
    ensures
        b == (crate::config::opt_string_view(*o) == Some(lit@)),
{
    match o {
        Some(s) => {
            let v = chars_of(s.as_str());
            eq_lit(v.as_slice(), lit)
        },
        None => false,
    }
}

/// The detail line of an action, if it has one.
pub fn action_detail(action: &Action) -> (r: Option<String>)
    ensures
        match r {
            Some(s) => action_detail_spec(action@) == Some(s@),
            None => action_detail_spec(action@) is None,
        },
{
    let t = chars_of(action.action_type.as_str());
    let t = t.as_slice();
    if eq_lit(t, "keystroke") {
        let key = match non_blank_exec(&action.keystroke) {
            Some(k) => k,
            None => {
                return None;
            },
        };
        let ghost ms = match action@.modifiers {
            Some(ms) => trimmed_modifiers(ms),
            None => Seq::empty(),
        };
        let mut keys: Vec<Vec<char>> = Vec::new();
        match &action.modifiers {
            Some(modifiers) => {
                let ghost mv = crate::config::strings_seq_view(modifiers@);
                let n = modifiers.len();
                let mut i: usize = 0;
                while i < n
                    invariant
                        i <= n,
                        n == modifiers@.len(),
                        mv == crate::config::strings_seq_view(modifiers@),
                        crate::binding::char_vecs_view(keys@) =~= trimmed_modifiers(mv.take(i as int)),
                    decreases n - i,
                {
                    let m = chars_of(modifiers[i].as_str());
                    let tm = trim_chars(m.as_slice());
                    let ghost prev = crate::binding::char_vecs_view(keys@);
                    assert(mv.take(i + 1).drop_last() =~= mv.take(i as int));
                    assert(mv.take(i + 1).last() == modifiers@[i as int]@);
                    if tm.len() > 0 {
                        keys.push(tm);
                        assert(crate::binding::char_vecs_view(keys@) =~= prev.push(tm@));
                    }
                    i = i + 1;
                }
                assert(mv.take(n as int) =~= mv);
            },
            None => {
                assert(crate::binding::char_vecs_view(keys@) =~= Seq::<Seq<char>>::empty());
            },
        }
        let kc = chars_of(key.as_str());
        let ghost before = crate::binding::char_vecs_view(keys@);
        keys.push(kc);
        assert(crate::binding::char_vecs_view(keys@) =~= before.push(key@));
        return Some(join_keys(&keys));
    }
    if eq_lit(t, "command") {
        return non_blank_exec(&action.command);
    }
    if eq_lit(t, "url") {
        return non_blank_exec(&action.url);
    }
    if eq_lit(t, "window_operation") {
        if op_is(&action.operation, "minimize") {
            return Some(string_from("最小化"));
        } else if op_is(&action.operation, "maximize") {
            return Some(string_from("最大化"));
        } else if op_is(&action.operation, "close") {
            return Some(string_from("閉じる"));
        } else {
            return None;
        }
    }
    None
}

/// The parts joined with `+`.
fn join_keys(parts: &Vec<Vec<char>>) -> (s: String)
    ensures
        s@ == join_plus(crate::binding::char_vecs_view(parts@)),
{
    let ghost pv = crate::binding::char_vecs_view(parts@);
    let mut s = String::new();
    let n = parts.len();
    let mut i: usize = 0;
    while i < n
        invariant
            i <= n,
            n == parts@.len(),
            pv == crate::binding::char_vecs_view(parts@),
            s@ == join_plus(pv.take(i as int)),
        decreases n - i,
    {
        assert(pv.take(i + 1).drop_last() =~= pv.take(i as int));
        assert(pv.take(i + 1).last() == parts@[i as int]@);
        if i > 0 {
            let plus = chars_of("+");
            push_chars(&mut s, plus.as_slice());
        } else {
            assert(pv.take(1)[0] == parts@[0]@);
            assert(s@ =~= Seq::<char>::empty());
        }
        push_chars(&mut s, parts[i].as_slice());
        proof {
            if i == 0 {
                assert(s@ =~= pv.take(1)[0]);
            }
        }
        i = i + 1;
    }
    assert(pv.take(n as int) =~= pv);
    s
}

/// The two lines that label an action: its name (with the detail as second
/// line unless it repeats the name), or, for an unnamed action, its type label
/// and the detail.
pub open spec fn action_label_lines_spec(a: ActionView) -> (Seq<char>, Option<Seq<char>>) {
    let name = trim_seq(a.name);
    if name.len() > 0 {
        (
            name,
            match action_detail_spec(a) {
                Some(d) => if d != name {
                    Some(d)
                } else {
                    None
                },
                None => None,
            },
        )
    } else {
        (action_type_label_spec(a.action_type), action_detail_spec(a))
    }
}

/// The two lines that label an action.
pub fn action_label_lines(action: &Action) -> (r: (String, Option<String>))
    ensures
        (r.0@, crate::config::opt_string_view(r.1)) == action_label_lines_spec(action@),
{
    let detail = action_detail(action);
    let nm = chars_of(action.name.as_str());
    let name = trim_chars(nm.as_slice());
    if name.len() > 0 {
        let secondary = match detail {
            Some(d) => {
                let dc = chars_of(d.as_str());
                if !crate::text::chars_eq(dc.as_slice(), name.as_slice()) {
                    Some(d)
                } else {
                    None
                }
            },
            None => None,
        };
        return (crate::text::string_of(name.as_slice()), secondary);
    }
    (string_from(action_type_label(action.action_type.as_str())), detail)
}

} // verus!

verus! {

// ---------------------------------------------------------------------------
// Laws of slots and action keys
// ---------------------------------------------------------------------------

/// Each slot reads its own settings: `B` the binding and color of slot B, `C`
/// those of slot C, and any other slot name those of slot A.
pub proof fn law_slot_settings(c: ConfigView, slot: Seq<char>)
    ensures
        slot == "B"@ ==> trigger_for_slot_spec(c, slot) == c.trigger_b && color_for_slot_spec(c, slot)
            == c.trigger_b_color,
        slot == "C"@ ==> trigger_for_slot_spec(c, slot) == c.trigger_c && color_for_slot_spec(c, slot)
            == c.trigger_c_color,
        slot != "B"@ && slot != "C"@ ==> trigger_for_slot_spec(c, slot) == c.trigger_a
            && color_for_slot_spec(c, slot) == c.trigger_a_color,
{
    reveal_strlit("A");
    reveal_strlit("B");
    reveal_strlit("C");
    assert("A"@[0] != "B"@[0] && "A"@[0] != "C"@[0] && "B"@[0] != "C"@[0]);
}

/// Action keys identify triggers: two gesture actions have the same key
/// exactly when they have the same slot (after slot normalization) and the
/// same gesture name; two wheel actions exactly when they have the same
/// wheel trigger; and a gesture action never shares its key with a wheel
/// action.
pub proof fn law_action_keys(a: ActionView, b: ActionView)
    ensures
        a.trigger_type != "wheel"@ && b.trigger_type != "wheel"@ ==> (action_key_spec(a)
            == action_key_spec(b) <==> slot_spec(a.trigger_slot) == slot_spec(b.trigger_slot)
            && a.gesture == b.gesture),
        a.trigger_type == "wheel"@ && b.trigger_type == "wheel"@ ==> (action_key_spec(a)
            == action_key_spec(b) <==> (match a.wheel_trigger {
            Some(w) => w,
            None => Seq::<char>::empty(),
        }) == (match b.wheel_trigger {
            Some(w) => w,
            None => Seq::<char>::empty(),
        })),
        a.trigger_type != "wheel"@ && b.trigger_type == "wheel"@ ==> action_key_spec(a)
            != action_key_spec(b),
{
    reveal_strlit("gesture:");
    reveal_strlit("wheel:");
    reveal_strlit(":");
    reveal_strlit("A");
    reveal_strlit("B");
    reveal_strlit("C");
    let ka = action_key_spec(a);
    let kb = action_key_spec(b);
    if a.trigger_type != "wheel"@ && b.trigger_type != "wheel"@ {
        let sa = slot_spec(a.trigger_slot);
        let sb = slot_spec(b.trigger_slot);
        assert(sa.len() == 1 && sb.len() == 1);
        assert(ka =~= "gesture:"@ + sa + ":"@ + a.gesture);
        assert(kb =~= "gesture:"@ + sb + ":"@ + b.gesture);
        if ka == kb {
            assert(ka[8] == sa[0] && kb[8] == sb[0]);
            assert(sa =~= seq![sa[0]] && sb =~= seq![sb[0]]);
            assert(a.gesture =~= ka.subrange(10, ka.len() as int));
            assert(b.gesture =~= kb.subrange(10, kb.len() as int));
        }
    }
    if a.trigger_type == "wheel"@ && b.trigger_type == "wheel"@ {
        let wa = match a.wheel_trigger {
            Some(w) => w,
            None => Seq::<char>::empty(),
        };
        let wb = match b.wheel_trigger {
            Some(w) => w,
            None => Seq::<char>::empty(),
        };
        assert(ka =~= "wheel:"@ + wa);
        assert(kb =~= "wheel:"@ + wb);
        if ka == kb {
            assert(wa =~= ka.subrange(6, ka.len() as int));
            assert(wb =~= kb.subrange(6, kb.len() as int));
        }
    }
    if a.trigger_type != "wheel"@ && b.trigger_type == "wheel"@ {
        assert(ka[0] == 'g' && kb[0] == 'w');
    }
}

} // verus!
