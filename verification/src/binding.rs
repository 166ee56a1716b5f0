use vstd::prelude::*;

use crate::keys::{keyboard_chars_to_vk, vk_spec};
use crate::text::{
    ascii_lower, chars_of, lower_eq_lit, push_chars, starts_with_lit, string_from, sub_chars,
    trim_chars, trim_seq,
};

verus! {

// ---------------------------------------------------------------------------
// Mouse buttons
// ---------------------------------------------------------------------------

/// A mouse button that can start a gesture.
#[derive(Clone, Copy, Debug, PartialEq, Eq, Structural)]
pub enum MouseButton {
    Left,
    Right,
    Middle,
    X1,
    X2,
}

/// The canonical (lowercase) name of a mouse button.
pub open spec fn mouse_button_name(b: MouseButton) -> Seq<char> {
    match b {
        MouseButton::Left => "left"@,
        MouseButton::Right => "right"@,
        MouseButton::Middle => "middle"@,
        MouseButton::X1 => "x1"@,
        MouseButton::X2 => "x2"@,
    }
}

/// The mouse button a binding names: the binding, trimmed and in ASCII
/// lowercase, is the bare button name or the name after `mouse:`.
pub open spec fn mouse_button_spec(value: Seq<char>) -> Option<MouseButton> {
    let t = ascii_lower(trim_seq(value));
    if t == "left"@ || t == "mouse:left"@ {
        Some(MouseButton::Left)
    } else if t == "right"@ || t == "mouse:right"@ {
        Some(MouseButton::Right)
    } else if t == "middle"@ || t == "mouse:middle"@ {
        Some(MouseButton::Middle)
    } else if t == "x1"@ || t == "mouse:x1"@ {
        Some(MouseButton::X1)
    } else if t == "x2"@ || t == "mouse:x2"@ {
        Some(MouseButton::X2)
    } else {
        None
    }
}

pub fn mouse_button_name_exec(b: MouseButton) -> (s: &'static str)
    ensures
        s@ == mouse_button_name(b),
{
    match b {
        MouseButton::Left => "left",
        MouseButton::Right => "right",
        MouseButton::Middle => "middle",
        MouseButton::X1 => "x1",
        MouseButton::X2 => "x2",
    }
}

/// The mouse button a binding names, if it names one.
pub fn normalize_mouse_trigger(value: &[char]) -> (r: Option<MouseButton>)
    ensures
        r == mouse_button_spec(value@),
{
    let t = trim_chars(value);
    let t = t.as_slice();
    if lower_eq_lit(t, "left") || lower_eq_lit(t, "mouse:left") {
        Some(MouseButton::Left)
    } else if lower_eq_lit(t, "right") || lower_eq_lit(t, "mouse:right") {
        Some(MouseButton::Right)
    } else if lower_eq_lit(t, "middle") || lower_eq_lit(t, "mouse:middle") {
        Some(MouseButton::Middle)
    } else if lower_eq_lit(t, "x1") || lower_eq_lit(t, "mouse:x1") {
        Some(MouseButton::X1)
    } else if lower_eq_lit(t, "x2") || lower_eq_lit(t, "mouse:x2") {
        Some(MouseButton::X2)
    } else {
        None
    }
}

// ---------------------------------------------------------------------------
// Keyboard modifiers
// ---------------------------------------------------------------------------

/// A modifier key of a keyboard binding.
#[derive(Clone, Copy, Debug, PartialEq, Eq, Structural)]
pub enum Modifier {
    Ctrl,
    Alt,
    Shift,
}

/// The canonical name of a modifier.
pub open spec fn modifier_name(m: Modifier) -> Seq<char> {
    match m {
        Modifier::Ctrl => "Ctrl"@,
        Modifier::Alt => "Alt"@,
        Modifier::Shift => "Shift"@,
    }
}

/// The modifier a binding part names (trimmed, ASCII case ignored).
pub open spec fn modifier_spec(value: Seq<char>) -> Option<Modifier> {
    let t = ascii_lower(trim_seq(value));
    if t == "ctrl"@ || t == "control"@ {
        Some(Modifier::Ctrl)
    } else if t == "alt"@ {
        Some(Modifier::Alt)
    } else if t == "shift"@ {
        Some(Modifier::Shift)
    } else {
        None
    }
}

/// Every part names a modifier.
pub open spec fn all_modifiers_known(ms: Seq<Seq<char>>) -> bool {
    forall|i: int| 0 <= i < ms.len() ==> (#[trigger] modifier_spec(ms[i])) is Some
}

/// Some part names modifier `m`.
pub open spec fn has_modifier(ms: Seq<Seq<char>>, m: Modifier) -> bool {
    exists|i: int| 0 <= i < ms.len() && #[trigger] modifier_spec(ms[i]) == Some(m)
}

/// The canonical names of the modifiers that occur in `ms`, each once, in the
/// order Ctrl, Alt, Shift.
pub open spec fn ordered_modifier_names(ms: Seq<Seq<char>>) -> Seq<Seq<char>> {
    (if has_modifier(ms, Modifier::Ctrl) {
        seq!["Ctrl"@]
    } else {
        Seq::empty()
    }) + (if has_modifier(ms, Modifier::Alt) {
        seq!["Alt"@]
    } else {
        Seq::empty()
    }) + (if has_modifier(ms, Modifier::Shift) {
        seq!["Shift"@]
    } else {
        Seq::empty()
    })
}

/// The modifier a binding part names, if it names one.
pub fn normalize_trigger_modifier(value: &[char]) -> (r: Option<Modifier>)
    ensures
        r == modifier_spec(value@),
{
    let t = trim_chars(value);
    let t = t.as_slice();
    if lower_eq_lit(t, "ctrl") || lower_eq_lit(t, "control") {
        Some(Modifier::Ctrl)
    } else if lower_eq_lit(t, "alt") {
        Some(Modifier::Alt)
    } else if lower_eq_lit(t, "shift") {
        Some(Modifier::Shift)
    } else {
        None
    }
}

/// The views of a vector of character vectors.
pub open spec fn char_vecs_view(v: Seq<Vec<char>>) -> Seq<Seq<char>> {
    v.map_values(|x: Vec<char>| x@)
}

/// The views of a vector of strings.
pub open spec fn strings_view(v: Seq<String>) -> Seq<Seq<char>> {
    v.map_values(|x: String| x@)
}

/// The canonical names of the modifiers among the first `count` parts, in the
/// order Ctrl, Alt, Shift, or `None` when one of them is not a modifier.
pub fn normalize_trigger_modifiers(parts: &Vec<Vec<char>>, count: usize) -> (r: Option<Vec<String>>)
    requires
        count <= parts@.len(),
    ensures
        match r {
            Some(names) => {
                &&& all_modifiers_known(char_vecs_view(parts@.take(count as int)))
                &&& strings_view(names@) == ordered_modifier_names(
                    char_vecs_view(parts@.take(count as int)),
                )
            },
            None => !all_modifiers_known(char_vecs_view(parts@.take(count as int))),
        },
{
    let ghost ms = char_vecs_view(parts@.take(count as int));
    let mut ctrl = false;
    let mut alt = false;
    let mut shift = false;
    let mut i: usize = 0;
    while i < count
        invariant
            i <= count <= parts@.len(),
            ms == char_vecs_view(parts@.take(count as int)),
            forall|k: int| 0 <= k < i ==> (#[trigger] modifier_spec(ms[k])) is Some,
            ctrl == exists|k: int| 0 <= k < i && #[trigger] modifier_spec(ms[k]) == Some(
                Modifier::Ctrl,
            ),
            alt == exists|k: int| 0 <= k < i && #[trigger] modifier_spec(ms[k]) == Some(
                Modifier::Alt,
            ),
            shift == exists|k: int| 0 <= k < i && #[trigger] modifier_spec(ms[k]) == Some(
                Modifier::Shift,
            ),
        decreases count - i,
    {
        let m = normalize_trigger_modifier(parts[i].as_slice());
        assert(ms[i as int] == parts@[i as int]@);
        match m {
            Some(Modifier::Ctrl) => {
                ctrl = true;
            },
            Some(Modifier::Alt) => {
                alt = true;
            },
            Some(Modifier::Shift) => {
                shift = true;
            },
            None => {
                assert(modifier_spec(ms[i as int]) is None);
                return None;
            },
        }
        i = i + 1;
    }
    let mut names: Vec<String> = Vec::new();
    if ctrl {
        names.push(string_from("Ctrl"));
    }
    if alt {
        names.push(string_from("Alt"));
    }
    if shift {
        names.push(string_from("Shift"));
    }
    assert(strings_view(names@) =~= ordered_modifier_names(ms));
    Some(names)
}

// ---------------------------------------------------------------------------
// Splitting a keyboard binding into its parts
// ---------------------------------------------------------------------------

/// Reading `s` from left to right, the parts already closed by a `+` and the
/// part still open.
pub open spec fn split_plus_state(s: Seq<char>) -> (Seq<Seq<char>>, Seq<char>)
    decreases s.len(),
{
    if s.len() == 0 {
        (Seq::empty(), Seq::empty())
    } else {
        let prev = split_plus_state(s.drop_last());
        if s.last() == '+' {
            (prev.0.push(prev.1), Seq::empty())
        } else {
            (prev.0, prev.1.push(s.last()))
        }
    }
}

/// The pieces of `s` between `+` signs, as `str::split('+')` yields them.
pub open spec fn split_plus(s: Seq<char>) -> Seq<Seq<char>> {
    split_plus_state(s).0.push(split_plus_state(s).1)
}

pub open spec fn is_nonempty(p: Seq<char>) -> bool {
    p.len() > 0
}

/// Every piece trimmed.
pub open spec fn trim_all(ps: Seq<Seq<char>>) -> Seq<Seq<char>> {
    ps.map_values(|p: Seq<char>| trim_seq(p))
}

/// The non-empty pieces.
pub open spec fn drop_empty(ps: Seq<Seq<char>>) -> Seq<Seq<char>> {
    ps.filter(|p: Seq<char>| is_nonempty(p))
}

/// The pieces of `s` between `+` signs, each trimmed, empty ones left out.
pub open spec fn binding_parts(s: Seq<char>) -> Seq<Seq<char>> {
    drop_empty(trim_all(split_plus(s)))
}

pub proof fn lemma_filter_push(s: Seq<Seq<char>>, x: Seq<char>)
    ensures
        drop_empty(s.push(x)) == (if is_nonempty(x) {
            drop_empty(s).push(x)
        } else {
            drop_empty(s)
        }),
{
    reveal(Seq::filter);
    assert(s.push(x).drop_last() =~= s);
}

/// Splits `s` at its `+` signs; the pieces are trimmed and empty ones left out.
pub fn split_binding_parts(s: &[char]) -> (parts: Vec<Vec<char>>)
    ensures
        char_vecs_view(parts@) == binding_parts(s@),
{
    let n = s.len();
    let mut parts: Vec<Vec<char>> = Vec::new();
    let mut cur: Vec<char> = Vec::new();
    let mut i: usize = 0;
    while i < n
        invariant
            i <= n,
            n == s@.len(),
            cur@ == split_plus_state(s@.take(i as int)).1,
            char_vecs_view(parts@) == drop_empty(trim_all(split_plus_state(s@.take(i as int)).0)),
        decreases n - i,
    {
        let c = s[i];
        let ghost prev_parts = char_vecs_view(parts@);
        let ghost st = split_plus_state(s@.take(i as int));
        assert(s@.take(i + 1).drop_last() =~= s@.take(i as int));
        if c == '+' {
            let t = trim_chars(cur.as_slice());
            let ghost done = st.0;
            proof {
                assert(trim_all(done.push(st.1)) =~= trim_all(done).push(trim_seq(st.1)));
                lemma_filter_push(trim_all(done), trim_seq(st.1));
            }
            if t.len() > 0 {
                parts.push(t);
                assert(char_vecs_view(parts@) =~= prev_parts.push(trim_seq(st.1)));
            }
            cur = Vec::new();
        } else {
            cur.push(c);
        }
        i = i + 1;
    }
    let t = trim_chars(cur.as_slice());
    let ghost prev_parts = char_vecs_view(parts@);
    let ghost st = split_plus_state(s@);
    assert(s@.take(n as int) =~= s@);
    proof {
        assert(trim_all(st.0.push(st.1)) =~= trim_all(st.0).push(trim_seq(st.1)));
        lemma_filter_push(trim_all(st.0), trim_seq(st.1));
    }
    if t.len() > 0 {
        parts.push(t);
        assert(char_vecs_view(parts@) =~= prev_parts.push(trim_seq(st.1)));
    }
    parts
}

// ---------------------------------------------------------------------------
// Keyboard bindings
// ---------------------------------------------------------------------------

/// A keyboard binding `key:<Modifier+...+Code>`: after trimming it starts with
/// `key:`; the rest splits at `+` into trimmed, non-empty parts; the last part
/// is a known key code and every other part a modifier.  The result holds the
/// modifiers in canonical form and order, and the key code.
pub open spec fn parse_keyboard_spec(value: Seq<char>) -> Option<(Seq<Seq<char>>, Seq<char>)> {
    let t = trim_seq(value);
    if t.len() >= 4 && t.take(4) == "key:"@ {
        let parts = binding_parts(t.skip(4));
        if parts.len() == 0 {
            None
        } else if all_modifiers_known(parts.drop_last()) && vk_spec(parts.last()) is Some {
            Some((ordered_modifier_names(parts.drop_last()), parts.last()))
        } else {
            None
        }
    } else {
        None
    }
}

/// Parses a keyboard binding into its canonical modifiers and its key code.
pub fn parse_keyboard_trigger(value: &str) -> (r: Option<(Vec<String>, String)>)
    ensures
        match r {
            Some((mods, code)) => parse_keyboard_spec(value@) == Some(
                (strings_view(mods@), code@),
            ),
            None => parse_keyboard_spec(value@) is None,
        },
{
    let v = chars_of(value);
    parse_keyboard_chars(v.as_slice())
}

/// Parses a keyboard binding given as characters.
pub fn parse_keyboard_chars(v: &[char]) -> (r: Option<(Vec<String>, String)>)
    ensures
        match r {
            Some((mods, code)) => parse_keyboard_spec(v@) == Some(
                (strings_view(mods@), code@),
            ),
            None => parse_keyboard_spec(v@) is None,
        },
{
    proof {
        reveal_strlit("key:");
    }
    let t = trim_chars(v);
    if !starts_with_lit(t.as_slice(), "key:") {
        return None;
    }
    let payload = sub_chars(t.as_slice(), 4, t.len());
    assert(payload@ =~= t@.skip(4));
    let parts = split_binding_parts(payload.as_slice());
    let ghost ps = binding_parts(t@.skip(4));
    if parts.len() == 0 {
        return None;
    }
    let last = parts.len() - 1;
    assert(char_vecs_view(parts@.take(last as int)) =~= ps.drop_last());
    assert(parts@[last as int]@ == ps.last());
    let mods = match normalize_trigger_modifiers(&parts, last) {
        Some(m) => m,
        None => {
            return None;
        },
    };
    if keyboard_chars_to_vk(parts[last].as_slice()).is_none() {
        return None;
    }
    let mut code = String::new();
    push_chars(&mut code, parts[last].as_slice());
    assert(code@ =~= ps.last());
    Some((mods, code))
}

/// The text that ends a modifier prefix: every name followed by `+`.
pub open spec fn modifier_prefix(ms: Seq<Seq<char>>) -> Seq<char>
    decreases ms.len(),
{
    if ms.len() == 0 {
        Seq::empty()
    } else {
        modifier_prefix(ms.drop_last()) + ms.last() + "+"@
    }
}

/// The canonical text of a keyboard binding: `key:` then the modifiers joined
/// by `+`, then (after one more `+` when there are modifiers) the key code.
pub open spec fn format_keyboard_spec(ms: Seq<Seq<char>>, code: Seq<char>) -> Seq<char> {
    "key:"@ + modifier_prefix(ms) + code
}

/// Formats a keyboard binding from its modifiers and key code.
pub fn format_keyboard_trigger(modifiers: &Vec<String>, code: &String) -> (s: String)
    ensures
        s@ == format_keyboard_spec(strings_view(modifiers@), code@),
{
    let mut s = string_from("key:");
    let n = modifiers.len();
    let mut i: usize = 0;
    while i < n
        invariant
            i <= n,
            n == modifiers@.len(),
            s@ == "key:"@ + modifier_prefix(strings_view(modifiers@).take(i as int)),
        decreases n - i,
    {
        let m = chars_of(modifiers[i].as_str());
        push_chars(&mut s, m.as_slice());
        let plus = chars_of("+");
        push_chars(&mut s, plus.as_slice());
        proof {
            let ms = strings_view(modifiers@);
            assert(ms.take(i + 1).drop_last() =~= ms.take(i as int));
            assert(ms.take(i + 1).last() == modifiers@[i as int]@);
        }
        i = i + 1;
    }
    assert(strings_view(modifiers@).take(n as int) =~= strings_view(modifiers@));
    let c = chars_of(code.as_str());
    push_chars(&mut s, c.as_slice());
    s
}

/// The canonical text of a mouse binding.
pub open spec fn format_mouse_spec(b: MouseButton) -> Seq<char> {
    "mouse:"@ + mouse_button_name(b)
}

fn format_mouse_trigger(b: MouseButton) -> (s: String)
    ensures
        s@ == format_mouse_spec(b),
{
    let mut s = string_from("mouse:");
    let name = chars_of(mouse_button_name_exec(b));
    push_chars(&mut s, name.as_slice());
    s
}

/// The canonical form of a trigger binding: a mouse binding becomes
/// `mouse:<button>`, a keyboard binding its canonical `key:` text; anything
/// else falls back to the default, in canonical form when it names a mouse
/// button and as given otherwise.
pub open spec fn normalize_binding_spec(value: Seq<char>, default_value: Seq<char>) -> Seq<char> {
    match mouse_button_spec(value) {
        Some(b) => format_mouse_spec(b),
        None => match parse_keyboard_spec(value) {
            Some((ms, code)) => format_keyboard_spec(ms, code),
            None => match mouse_button_spec(default_value) {
                Some(b) => format_mouse_spec(b),
                None => default_value,
            },
        },
    }
}

/// Whether a binding is a mouse or keyboard binding.
pub open spec fn is_valid_binding_spec(value: Seq<char>) -> bool {
    mouse_button_spec(value) is Some || parse_keyboard_spec(value) is Some
}

/// The canonical form of a trigger binding, or of the default when the binding
/// is neither a mouse nor a keyboard binding.
pub fn normalize_trigger_binding(value: &str, default_value: &str) -> (s: String)
    ensures
        s@ == normalize_binding_spec(value@, default_value@),
{
    let v = chars_of(value);
    if let Some(b) = normalize_mouse_trigger(v.as_slice()) {
        return format_mouse_trigger(b);
    }
    if let Some((mods, code)) = parse_keyboard_chars(v.as_slice()) {
        return format_keyboard_trigger(&mods, &code);
    }
    let d = chars_of(default_value);
    if let Some(b) = normalize_mouse_trigger(d.as_slice()) {
        return format_mouse_trigger(b);
    }
    string_from(default_value)
}

/// Whether a binding is a mouse or keyboard binding.
pub fn is_valid_trigger_binding(value: &str) -> (b: bool)
    ensures
        b == is_valid_binding_spec(value@),
{
    let v = chars_of(value);
    normalize_mouse_trigger(v.as_slice()).is_some() || parse_keyboard_chars(v.as_slice()).is_some()
}

} // verus!

verus! {

// ---------------------------------------------------------------------------
// Laws of bindings
// ---------------------------------------------------------------------------

/// A part of a keyboard binding: non-empty, trimmed, without `+`.
pub open spec fn is_good_part(p: Seq<char>) -> bool {
    p.len() > 0 && crate::text::is_trimmed(p) && !p.contains('+')
}

pub proof fn lemma_split_state_no_plus(s: Seq<char>)
    ensures
        forall|i: int|
            0 <= i < split_plus_state(s).0.len() ==> !(#[trigger] split_plus_state(s).0[i]).contains(
                '+',
            ),
        !split_plus_state(s).1.contains('+'),
    decreases s.len(),
{
    if s.len() > 0 {
        lemma_split_state_no_plus(s.drop_last());
        let prev = split_plus_state(s.drop_last());
        if s.last() != '+' {
            let cur = prev.1.push(s.last());
            if cur.contains('+') {
                let k = choose|k: int| 0 <= k < cur.len() && cur[k] == '+';
                assert(k < prev.1.len());
                assert(prev.1[k] == '+');
            }
        } else {
            let d = prev.0.push(prev.1);
            assert forall|i: int| 0 <= i < d.len() implies !(#[trigger] d[i]).contains('+') by {
                if i < prev.0.len() {
                    assert(d[i] == prev.0[i]);
                }
            }
        }
    }
}

pub proof fn lemma_parts_good(ps: Seq<Seq<char>>)
    requires
        forall|i: int| 0 <= i < ps.len() ==> !(#[trigger] ps[i]).contains('+'),
    ensures
        forall|i: int|
            0 <= i < drop_empty(trim_all(ps)).len() ==> is_good_part(
                #[trigger] drop_empty(trim_all(ps))[i],
            ),
    decreases ps.len(),
{
    if ps.len() > 0 {
        let pre = ps.drop_last();
        assert forall|i: int| 0 <= i < pre.len() implies !(#[trigger] pre[i]).contains('+') by {
            assert(pre[i] == ps[i]);
        }
        lemma_parts_good(pre);
        assert(ps =~= pre.push(ps.last()));
        assert(trim_all(ps) =~= trim_all(pre).push(trim_seq(ps.last())));
        lemma_filter_push(trim_all(pre), trim_seq(ps.last()));
        crate::text::lemma_trim_is_trimmed(ps.last());
        crate::text::lemma_trim_keeps_chars(ps.last(), '+');
        let r = drop_empty(trim_all(ps));
        let r0 = drop_empty(trim_all(pre));
        assert forall|i: int| 0 <= i < r.len() implies is_good_part(#[trigger] r[i]) by {
            if i < r0.len() {
                assert(r[i] == r0[i]);
            }
        }
    }
}

/// Every part of a keyboard binding is non-empty, trimmed and free of `+`.
pub proof fn lemma_binding_parts_good(s: Seq<char>)
    ensures
        forall|i: int|
            0 <= i < binding_parts(s).len() ==> is_good_part(#[trigger] binding_parts(s)[i]),
{
    lemma_split_state_no_plus(s);
    let st = split_plus_state(s);
    let sp = split_plus(s);
    assert forall|i: int| 0 <= i < sp.len() implies !(#[trigger] sp[i]).contains('+') by {
        if i < st.0.len() {
            assert(sp[i] == st.0[i]);
        }
    }
    lemma_parts_good(sp);
}

/// Appending text without `+` extends the open part.
pub proof fn lemma_split_append_no_plus(p: Seq<char>, x: Seq<char>)
    requires
        !x.contains('+'),
    ensures
        split_plus_state(p + x) == (split_plus_state(p).0, split_plus_state(p).1 + x),
    decreases x.len(),
{
    if x.len() == 0 {
        assert(p + x =~= p);
        assert(split_plus_state(p).1 + x =~= split_plus_state(p).1);
    } else {
        let x0 = x.drop_last();
        assert(!x0.contains('+')) by {
            if x0.contains('+') {
                let k = choose|k: int| 0 <= k < x0.len() && x0[k] == '+';
                assert(x[k] == '+');
            }
        }
        lemma_split_append_no_plus(p, x0);
        assert((p + x).drop_last() =~= p + x0);
        assert((p + x).last() == x.last());
        assert(x.last() != '+') by {
            assert(x[x.len() - 1] == x.last());
        }
        assert(split_plus_state(p).1 + x =~= (split_plus_state(p).1 + x0).push(x.last()));
    }
}

pub proof fn lemma_split_modifier_prefix(m: Seq<Seq<char>>)
    requires
        forall|i: int| 0 <= i < m.len() ==> !(#[trigger] m[i]).contains('+'),
    ensures
        split_plus_state(modifier_prefix(m)) == (m, Seq::<char>::empty()),
    decreases m.len(),
{
    reveal_strlit("+");
    if m.len() == 0 {
        assert(modifier_prefix(m) =~= Seq::<char>::empty());
        assert(m =~= Seq::<Seq<char>>::empty());
    } else {
        let m0 = m.drop_last();
        assert forall|i: int| 0 <= i < m0.len() implies !(#[trigger] m0[i]).contains('+') by {
            assert(m0[i] == m[i]);
        }
        lemma_split_modifier_prefix(m0);
        let p = modifier_prefix(m0);
        lemma_split_append_no_plus(p, m.last());
        assert(Seq::<char>::empty() + m.last() =~= m.last());
        let q = p + m.last();
        assert(modifier_prefix(m) =~= q.push('+'));
        assert(q.push('+').drop_last() =~= q);
        assert(m0.push(m.last()) =~= m);
    }
}

pub proof fn lemma_drop_empty_all_nonempty(ps: Seq<Seq<char>>)
    requires
        forall|i: int| 0 <= i < ps.len() ==> is_nonempty(#[trigger] ps[i]),
    ensures
        drop_empty(ps) == ps,
    decreases ps.len(),
{
    if ps.len() > 0 {
        let pre = ps.drop_last();
        assert forall|i: int| 0 <= i < pre.len() implies is_nonempty(#[trigger] pre[i]) by {
            assert(pre[i] == ps[i]);
        }
        lemma_drop_empty_all_nonempty(pre);
        assert(ps =~= pre.push(ps.last()));
        lemma_filter_push(pre, ps.last());
    } else {
        reveal(Seq::filter);
    }
}

pub proof fn lemma_modifier_literals()
    ensures
        modifier_spec("Ctrl"@) == Some(Modifier::Ctrl),
        modifier_spec("Alt"@) == Some(Modifier::Alt),
        modifier_spec("Shift"@) == Some(Modifier::Shift),
        is_good_part("Ctrl"@),
        is_good_part("Alt"@),
        is_good_part("Shift"@),
{
    reveal_strlit("Ctrl");
    reveal_strlit("Alt");
    reveal_strlit("Shift");
    reveal_strlit("ctrl");
    reveal_strlit("control");
    reveal_strlit("alt");
    reveal_strlit("shift");
    assert(trim_seq("Ctrl"@) == "Ctrl"@);
    assert(trim_seq("Alt"@) == "Alt"@);
    assert(trim_seq("Shift"@) == "Shift"@);
    assert(ascii_lower("Ctrl"@) =~= "ctrl"@);
    assert(ascii_lower("Alt"@) =~= "alt"@);
    assert(ascii_lower("Shift"@) =~= "shift"@);
    assert(!"Ctrl"@.contains('+'));
    assert(!"Alt"@.contains('+'));
    assert(!"Shift"@.contains('+'));
}

/// The modifiers named by a canonical modifier list are exactly its members.
pub proof fn lemma_ordered_names_fixed(ms: Seq<Seq<char>>)
    ensures
        all_modifiers_known(ordered_modifier_names(ms)),
        ordered_modifier_names(ordered_modifier_names(ms)) == ordered_modifier_names(ms),
        forall|i: int|
            0 <= i < ordered_modifier_names(ms).len() ==> is_good_part(
                #[trigger] ordered_modifier_names(ms)[i],
            ),
{
    lemma_modifier_literals();
    let o = ordered_modifier_names(ms);
    let hc = has_modifier(ms, Modifier::Ctrl);
    let ha = has_modifier(ms, Modifier::Alt);
    let hs = has_modifier(ms, Modifier::Shift);
    assert forall|i: int| 0 <= i < o.len() implies (modifier_spec(o[i]) == Some(Modifier::Ctrl)
        && o[i] == "Ctrl"@) || (modifier_spec(o[i]) == Some(Modifier::Alt) && o[i] == "Alt"@) || (
    modifier_spec(o[i]) == Some(Modifier::Shift) && o[i] == "Shift"@) by {}
    assert(has_modifier(o, Modifier::Ctrl) == hc) by {
        if hc {
            assert(o[0] == "Ctrl"@);
        }
    }
    assert(has_modifier(o, Modifier::Alt) == ha) by {
        if ha {
            let k: int = if hc { 1 } else { 0 };
            assert(o[k] == "Alt"@);
        }
    }
    assert(has_modifier(o, Modifier::Shift) == hs) by {
        if hs {
            let k: int = (if hc { 1int } else { 0int }) + (if ha { 1int } else { 0int });
            assert(o[k] == "Shift"@);
        }
    }
    assert(ordered_modifier_names(o) =~= o);
}

/// The canonical text of a keyboard binding (empty when it is none).
pub open spec fn canonical_keyboard_text(v: Seq<char>) -> Seq<char> {
    match parse_keyboard_spec(v) {
        Some((ms, code)) => format_keyboard_spec(ms, code),
        None => Seq::empty(),
    }
}

/// A trimmed text that starts with `k` names no mouse button.
pub proof fn lemma_k_text_not_mouse(f: Seq<char>)
    requires
        f.len() > 0,
        f[0] == 'k',
        crate::text::is_trimmed(f),
    ensures
        mouse_button_spec(f) is None,
{
    crate::text::lemma_trimmed_fixed(f);
    let low = ascii_lower(trim_seq(f));
    assert(low[0] == 'k');
    reveal_strlit("left");
    reveal_strlit("mouse:left");
    reveal_strlit("right");
    reveal_strlit("mouse:right");
    reveal_strlit("middle");
    reveal_strlit("mouse:middle");
    reveal_strlit("x1");
    reveal_strlit("mouse:x1");
    reveal_strlit("x2");
    reveal_strlit("mouse:x2");
    assert(low != "left"@ && low != "mouse:left"@ && low != "right"@ && low != "mouse:right"@);
    assert(low != "middle"@ && low != "mouse:middle"@ && low != "x1"@ && low != "mouse:x1"@);
    assert(low != "x2"@ && low != "mouse:x2"@);
}

/// The parts of a modifier prefix followed by a code are the modifiers and the code.
pub proof fn lemma_prefix_parts(m: Seq<Seq<char>>, code: Seq<char>)
    requires
        forall|i: int| 0 <= i < m.len() ==> is_good_part(#[trigger] m[i]),
        is_good_part(code),
    ensures
        binding_parts(modifier_prefix(m) + code) == m.push(code),
{
    assert forall|i: int| 0 <= i < m.len() implies !(#[trigger] m[i]).contains('+') by {
        assert(is_good_part(m[i]));
    }
    let body = modifier_prefix(m) + code;
    lemma_split_modifier_prefix(m);
    lemma_split_append_no_plus(modifier_prefix(m), code);
    assert(Seq::<char>::empty() + code =~= code);
    let sp = split_plus(body);
    assert(sp =~= m.push(code));
    assert forall|i: int| 0 <= i < sp.len() implies trim_seq(#[trigger] sp[i]) == sp[i] by {
        if i < m.len() {
            assert(sp[i] == m[i]);
            assert(is_good_part(m[i]));
            crate::text::lemma_trimmed_fixed(m[i]);
        } else {
            crate::text::lemma_trimmed_fixed(code);
        }
    }
    assert(trim_all(sp) =~= sp);
    assert forall|i: int| 0 <= i < sp.len() implies is_nonempty(#[trigger] sp[i]) by {
        if i < m.len() {
            assert(sp[i] == m[i]);
            assert(is_good_part(m[i]));
        }
    }
    lemma_drop_empty_all_nonempty(sp);
}

/// Parsing the canonical text of a parsed keyboard binding gives it back.
pub proof fn lemma_keyboard_round_trip(v: Seq<char>)
    requires
        parse_keyboard_spec(v) is Some,
    ensures
        parse_keyboard_spec(canonical_keyboard_text(v)) == parse_keyboard_spec(v),
        mouse_button_spec(canonical_keyboard_text(v)) is None,
{
    reveal_strlit("key:");
    let t = trim_seq(v);
    let parts = binding_parts(t.skip(4));
    lemma_binding_parts_good(t.skip(4));
    let code = parts.last();
    assert(is_good_part(code));
    let m = ordered_modifier_names(parts.drop_last());
    lemma_ordered_names_fixed(parts.drop_last());
    let f = format_keyboard_spec(m, code);
    assert(f == canonical_keyboard_text(v));
    let body = modifier_prefix(m) + code;
    assert(f =~= "key:"@ + body);
    assert(f[0] == 'k');
    assert(f.last() == code.last());
    assert(crate::text::is_trimmed(f));
    crate::text::lemma_trimmed_fixed(f);
    assert(f.take(4) =~= "key:"@);
    assert(f.skip(4) =~= body);
    lemma_prefix_parts(m, code);
    assert(m.push(code).drop_last() =~= m);
    lemma_k_text_not_mouse(f);
}

} // verus!

verus! {

/// The canonical text of a mouse binding names that button again.
pub proof fn lemma_mouse_round_trip(b: MouseButton)
    ensures
        mouse_button_spec(format_mouse_spec(b)) == Some(b),
{
    reveal_strlit("mouse:");
    reveal_strlit("left");
    reveal_strlit("mouse:left");
    reveal_strlit("right");
    reveal_strlit("mouse:right");
    reveal_strlit("middle");
    reveal_strlit("mouse:middle");
    reveal_strlit("x1");
    reveal_strlit("mouse:x1");
    reveal_strlit("x2");
    reveal_strlit("mouse:x2");
    let f = format_mouse_spec(b);
    assert(f[0] == 'm');
    assert(crate::text::is_trimmed(f));
    crate::text::lemma_trimmed_fixed(f);
    match b {
        MouseButton::Left => {
            assert(f =~= "mouse:left"@);
            assert(ascii_lower(f) =~= f);
        },
        MouseButton::Right => {
            assert(f =~= "mouse:right"@);
            assert(ascii_lower(f) =~= f);
        },
        MouseButton::Middle => {
            assert(f =~= "mouse:middle"@);
            assert(ascii_lower(f) =~= f);
        },
        MouseButton::X1 => {
            assert(f =~= "mouse:x1"@);
            assert(ascii_lower(f) =~= f);
        },
        MouseButton::X2 => {
            assert(f =~= "mouse:x2"@);
            assert(ascii_lower(f) =~= f);
        },
    }
}

/// The built-in defaults `mouse:right`, `mouse:middle` and `mouse:x1` name a
/// mouse button and are already in canonical form.
pub proof fn lemma_mouse_defaults()
    ensures
        mouse_button_spec("mouse:right"@) == Some(MouseButton::Right),
        mouse_button_spec("mouse:middle"@) == Some(MouseButton::Middle),
        mouse_button_spec("mouse:x1"@) == Some(MouseButton::X1),
        normalize_binding_spec("mouse:right"@, "mouse:right"@) == "mouse:right"@,
        normalize_binding_spec("mouse:middle"@, "mouse:middle"@) == "mouse:middle"@,
        normalize_binding_spec("mouse:x1"@, "mouse:x1"@) == "mouse:x1"@,
{
    reveal_strlit("mouse:");
    reveal_strlit("right");
    reveal_strlit("middle");
    reveal_strlit("x1");
    reveal_strlit("mouse:right");
    reveal_strlit("mouse:middle");
    reveal_strlit("mouse:x1");
    lemma_mouse_round_trip(MouseButton::Right);
    lemma_mouse_round_trip(MouseButton::Middle);
    lemma_mouse_round_trip(MouseButton::X1);
    assert(format_mouse_spec(MouseButton::Right) =~= "mouse:right"@);
    assert(format_mouse_spec(MouseButton::Middle) =~= "mouse:middle"@);
    assert(format_mouse_spec(MouseButton::X1) =~= "mouse:x1"@);
}

/// Normalizing a normalized binding changes nothing, provided the default is
/// itself in normalized form (as the built-in defaults are).
pub proof fn law_normalize_binding_idempotent(v: Seq<char>, d: Seq<char>)
    requires
        normalize_binding_spec(d, d) == d,
    ensures
        normalize_binding_spec(normalize_binding_spec(v, d), d) == normalize_binding_spec(v, d),
{
    match mouse_button_spec(v) {
        Some(b) => lemma_mouse_round_trip(b),
        None => match parse_keyboard_spec(v) {
            Some((ms, code)) => {
                lemma_keyboard_round_trip(v);
                assert(canonical_keyboard_text(v) == normalize_binding_spec(v, d));
            },
            None => match mouse_button_spec(d) {
                Some(b) => lemma_mouse_round_trip(b),
                None => {},
            },
        },
    }
}

/// A binding normalized against a default that names a mouse button is always
/// a valid binding.
pub proof fn law_normalized_binding_valid(v: Seq<char>, d: Seq<char>)
    requires
        mouse_button_spec(d) is Some,
    ensures
        is_valid_binding_spec(normalize_binding_spec(v, d)),
{
    match mouse_button_spec(v) {
        Some(b) => lemma_mouse_round_trip(b),
        None => match parse_keyboard_spec(v) {
            Some((ms, code)) => {
                lemma_keyboard_round_trip(v);
                assert(canonical_keyboard_text(v) == normalize_binding_spec(v, d));
            },
            None => lemma_mouse_round_trip(mouse_button_spec(d)->0),
        },
    }
}

/// The modifiers of a parsed keyboard binding are canonical names, each at
/// most once, in the order Ctrl, Alt, Shift.
pub proof fn law_parsed_modifiers_canonical(v: Seq<char>)
    ensures
        match parse_keyboard_spec(v) {
            Some((ms, code)) => ordered_modifier_names(ms) == ms && ms.len() <= 3,
            None => true,
        },
{
    let t = trim_seq(v);
    let parts = binding_parts(t.skip(4));
    lemma_ordered_names_fixed(parts.drop_last());
}


/// How a binding written as `key:`, then modifier names each followed by `+`,
/// then a key code, parses: it names no mouse button, and it is a keyboard
/// binding exactly when every name is a modifier and the code is a key code.
pub proof fn lemma_parse_formatted(m: Seq<Seq<char>>, code: Seq<char>)
    requires
        forall|i: int| 0 <= i < m.len() ==> is_good_part(#[trigger] m[i]),
        is_good_part(code),
    ensures
        mouse_button_spec(format_keyboard_spec(m, code)) is None,
        parse_keyboard_spec(format_keyboard_spec(m, code)) == (if all_modifiers_known(m)
            && vk_spec(code) is Some {
            Some((ordered_modifier_names(m), code))
        } else {
            None::<(Seq<Seq<char>>, Seq<char>)>
        }),
{
    reveal_strlit("key:");
    let f = format_keyboard_spec(m, code);
    let body = modifier_prefix(m) + code;
    assert(f =~= "key:"@ + body);
    assert(f[0] == 'k');
    assert(f.last() == code.last());
    assert(crate::text::is_trimmed(f));
    crate::text::lemma_trimmed_fixed(f);
    assert(f.take(4) =~= "key:"@);
    assert(f.skip(4) =~= body);
    lemma_prefix_parts(m, code);
    assert(m.push(code).drop_last() =~= m);
    assert(m.push(code).last() == code);
    lemma_k_text_not_mouse(f);
}

/// The order in which a keyboard binding lists its modifiers does not matter:
/// two bindings written as `key:`, modifier names each followed by `+`, and
/// the same key code, whose lists of names are rearrangements of each other,
/// normalize to the same text.
pub proof fn law_modifier_order_irrelevant(m1: Seq<Seq<char>>, m2: Seq<Seq<char>>, code: Seq<char>, d: Seq<char>)
    requires
        forall|i: int| 0 <= i < m1.len() ==> is_good_part(#[trigger] m1[i]),
        is_good_part(code),
        m1.to_multiset() == m2.to_multiset(),
    ensures
        normalize_binding_spec(format_keyboard_spec(m1, code), d) == normalize_binding_spec(
            format_keyboard_spec(m2, code),
            d,
        ),
{
    broadcast use vstd::seq_lib::group_to_multiset_ensures;

    assert forall|x: Seq<char>| m1.contains(x) <==> m2.contains(x) by {
        assert(m1.contains(x) <==> m1.to_multiset().count(x) > 0);
        assert(m2.contains(x) <==> m2.to_multiset().count(x) > 0);
    }
    assert forall|i: int| 0 <= i < m2.len() implies is_good_part(#[trigger] m2[i]) by {
        assert(m2.contains(m2[i]));
        let j = choose|j: int| 0 <= j < m1.len() && m1[j] == m2[i];
        assert(is_good_part(m1[j]));
    }
    assert forall|md: Modifier| has_modifier(m1, md) == has_modifier(m2, md) by {
        if has_modifier(m1, md) {
            let i = choose|i: int| 0 <= i < m1.len() && #[trigger] modifier_spec(m1[i]) == Some(md);
            assert(m1.contains(m1[i]));
            let j = choose|j: int| 0 <= j < m2.len() && m2[j] == m1[i];
            assert(modifier_spec(m2[j]) == Some(md));
        }
        if has_modifier(m2, md) {
            let i = choose|i: int| 0 <= i < m2.len() && #[trigger] modifier_spec(m2[i]) == Some(md);
            assert(m2.contains(m2[i]));
            let j = choose|j: int| 0 <= j < m1.len() && m1[j] == m2[i];
            assert(modifier_spec(m1[j]) == Some(md));
        }
    }
    assert(has_modifier(m1, Modifier::Ctrl) == has_modifier(m2, Modifier::Ctrl));
    assert(has_modifier(m1, Modifier::Alt) == has_modifier(m2, Modifier::Alt));
    assert(has_modifier(m1, Modifier::Shift) == has_modifier(m2, Modifier::Shift));
    assert(ordered_modifier_names(m1) == ordered_modifier_names(m2));
    assert(all_modifiers_known(m1) == all_modifiers_known(m2)) by {
        if all_modifiers_known(m1) {
            assert forall|i: int| 0 <= i < m2.len() implies (#[trigger] modifier_spec(m2[i])) is Some by {
                assert(m2.contains(m2[i]));
                let j = choose|j: int| 0 <= j < m1.len() && m1[j] == m2[i];
                assert(modifier_spec(m1[j]) is Some);
            }
        }
        if all_modifiers_known(m2) {
            assert forall|i: int| 0 <= i < m1.len() implies (#[trigger] modifier_spec(m1[i])) is Some by {
                assert(m1.contains(m1[i]));
                let j = choose|j: int| 0 <= j < m2.len() && m2[j] == m1[i];
                assert(modifier_spec(m2[j]) is Some);
            }
        }
    }
    lemma_parse_formatted(m1, code);
    lemma_parse_formatted(m2, code);
}


/// Parsing the text `format_keyboard_trigger` writes gives back what it was
/// given: for canonical modifiers (each of Ctrl, Alt, Shift at most once, in
/// that order) and a key code with a virtual-key code and no `+`, the
/// formatted binding parses to exactly those modifiers and that code.
pub proof fn law_format_parse_round_trip(ms: Seq<Seq<char>>, code: Seq<char>)
    requires
        ordered_modifier_names(ms) == ms,
        vk_spec(code) is Some,
        !code.contains('+'),
    ensures
        parse_keyboard_spec(format_keyboard_spec(ms, code)) == Some((ms, code)),
        mouse_button_spec(format_keyboard_spec(ms, code)) is None,
{
    lemma_ordered_names_fixed(ms);
    crate::keys::lemma_vk_code_trimmed(code);
    assert(is_good_part(code));
    lemma_parse_formatted(ms, code);
}

} // verus!
