use vstd::prelude::*;

use crate::text::{
    all_digits, chars_of, decimal, decimal_value, digit_value, eq_lit, is_ascii_char, is_ascii_digit_char,
    is_ascii_digit_exec, is_ascii_upper_char, is_ascii_upper_exec, push_char, starts_with_lit,
    string_from, string_of, sub_chars,
};

verus! {

// ---------------------------------------------------------------------------
// Key codes (the `KeyboardEvent.code` names used in keyboard bindings)
// ---------------------------------------------------------------------------

/// The value of an unsigned decimal number as `str::parse` reads it: an
/// optional `+` sign followed by at least one ASCII digit.
pub open spec fn unsigned_value(s: Seq<char>) -> Option<nat> {
    let digits = if s.len() > 0 && s[0] == '+' { s.drop_first() } else { s };
    if digits.len() > 0 && all_digits(digits) {
        Some(decimal_value(digits))
    } else {
        None
    }
}

/// The number of a function key `F1` .. `F24`, read from the text after the `F`.
/// A value out of the integer type's range fails to parse; such values are
/// never in `1..=24`, so the range check covers both cases.
pub open spec fn function_key_number(code: Seq<char>) -> Option<nat> {
    if code.len() > 0 && code[0] == 'F' {
        match unsigned_value(code.drop_first()) {
            Some(v) => if 1 <= v <= 24 {
                Some(v)
            } else {
                None
            },
            None => None,
        }
    } else {
        None
    }
}

/// `code` is `prefix` followed by exactly one ASCII character (the byte length
/// of the code is the prefix length plus one).
pub open spec fn prefix_plus_ascii(code: Seq<char>, prefix: Seq<char>) -> bool {
    &&& code.len() == prefix.len() + 1
    &&& code.take(prefix.len() as int) == prefix
    &&& is_ascii_char(code.last())
}

/// Display names of the named keys.
pub open spec fn named_key_display(code: Seq<char>) -> Option<Seq<char>> {
    if code == "ArrowDown"@ {
        Some("Down"@)
    } else if code == "ArrowLeft"@ {
        Some("Left"@)
    } else if code == "ArrowRight"@ {
        Some("Right"@)
    } else if code == "ArrowUp"@ {
        Some("Up"@)
    } else if code == "Backspace"@ {
        Some("Backspace"@)
    } else if code == "CapsLock"@ {
        Some("CapsLock"@)
    } else if code == "Delete"@ {
        Some("Delete"@)
    } else if code == "End"@ {
        Some("End"@)
    } else if code == "Enter"@ {
        Some("Enter"@)
    } else if code == "Equal"@ {
        Some("="@)
    } else if code == "Escape"@ {
        Some("Escape"@)
    } else if code == "Home"@ {
        Some("Home"@)
    } else if code == "Insert"@ {
        Some("Insert"@)
    } else if code == "Minus"@ {
        Some("-"@)
    } else if code == "NumpadAdd"@ {
        Some("Num +"@)
    } else if code == "NumpadDecimal"@ {
        Some("Num ."@)
    } else if code == "NumpadDivide"@ {
        Some("Num /"@)
    } else if code == "NumpadEnter"@ {
        Some("Num Enter"@)
    } else if code == "NumpadMultiply"@ {
        Some("Num *"@)
    } else if code == "NumpadSubtract"@ {
        Some("Num -"@)
    } else if code == "PageDown"@ {
        Some("PageDown"@)
    } else if code == "PageUp"@ {
        Some("PageUp"@)
    } else if code == "Pause"@ {
        Some("Pause"@)
    } else if code == "Period"@ {
        Some("."@)
    } else if code == "PrintScreen"@ {
        Some("PrintScreen"@)
    } else if code == "ScrollLock"@ {
        Some("ScrollLock"@)
    } else if code == "Semicolon"@ {
        Some(";"@)
    } else if code == "Slash"@ {
        Some("/"@)
    } else if code == "Space"@ {
        Some("Space"@)
    } else if code == "Tab"@ {
        Some("Tab"@)
    } else {
        None
    }
}

/// The label shown for a key code, or `None` for a code without one.
pub open spec fn display_key_spec(code: Seq<char>) -> Option<Seq<char>> {
    if prefix_plus_ascii(code, "Key"@) {
        Some(code.subrange(3, 4))
    } else if prefix_plus_ascii(code, "Digit"@) {
        Some(code.subrange(5, 6))
    } else if function_key_number(code) is Some {
        Some(code)
    } else if prefix_plus_ascii(code, "Numpad"@) && is_ascii_digit_char(code[6]) {
        Some("Num "@.push(code[6]))
    } else {
        named_key_display(code)
    }
}

/// Windows virtual-key codes of the named keys.
pub open spec fn named_key_vk(code: Seq<char>) -> Option<u16> {
    if code == "ArrowLeft"@ {
        Some(0x25)
    } else if code == "ArrowUp"@ {
        Some(0x26)
    } else if code == "ArrowRight"@ {
        Some(0x27)
    } else if code == "ArrowDown"@ {
        Some(0x28)
    } else if code == "Backspace"@ {
        Some(0x08)
    } else if code == "Tab"@ {
        Some(0x09)
    } else if code == "Enter"@ {
        Some(0x0D)
    } else if code == "NumpadEnter"@ {
        Some(0x0D)
    } else if code == "Pause"@ {
        Some(0x13)
    } else if code == "CapsLock"@ {
        Some(0x14)
    } else if code == "Escape"@ {
        Some(0x1B)
    } else if code == "Space"@ {
        Some(0x20)
    } else if code == "PageUp"@ {
        Some(0x21)
    } else if code == "PageDown"@ {
        Some(0x22)
    } else if code == "End"@ {
        Some(0x23)
    } else if code == "Home"@ {
        Some(0x24)
    } else if code == "Insert"@ {
        Some(0x2D)
    } else if code == "Delete"@ {
        Some(0x2E)
    } else if code == "PrintScreen"@ {
        Some(0x2C)
    } else if code == "ScrollLock"@ {
        Some(0x91)
    } else if code == "Minus"@ {
        Some(0xBD)
    } else if code == "Equal"@ {
        Some(0xBB)
    } else if code == "Semicolon"@ {
        Some(0xBA)
    } else if code == "Slash"@ {
        Some(0xBF)
    } else if code == "Period"@ {
        Some(0xBE)
    } else if code == "NumpadMultiply"@ {
        Some(0x6A)
    } else if code == "NumpadAdd"@ {
        Some(0x6B)
    } else if code == "NumpadSubtract"@ {
        Some(0x6D)
    } else if code == "NumpadDecimal"@ {
        Some(0x6E)
    } else if code == "NumpadDivide"@ {
        Some(0x6F)
    } else {
        None
    }
}

/// The Windows virtual-key code of a key code, or `None` for an unknown code.
pub open spec fn vk_spec(code: Seq<char>) -> Option<u16> {
    if prefix_plus_ascii(code, "Key"@) && is_ascii_upper_char(code[3]) {
        Some(code[3] as u16)
    } else if prefix_plus_ascii(code, "Digit"@) && is_ascii_digit_char(code[5]) {
        Some(code[5] as u16)
    } else if function_key_number(code) is Some {
        Some((0x70 + function_key_number(code)->0 - 1) as u16)
    } else if prefix_plus_ascii(code, "Numpad"@) && is_ascii_digit_char(code[6]) {
        Some((0x60 + digit_value(code[6])) as u16)
    } else {
        named_key_vk(code)
    }
}

fn named_key_display_exec(code: &[char]) -> (r: Option<String>)
    ensures
        match r {
            Some(s) => named_key_display(code@) == Some(s@),
            None => named_key_display(code@) is None,
        },
{
    if eq_lit(code, "ArrowDown") {
        return Some(string_from("Down"));
    }
    if eq_lit(code, "ArrowLeft") {
        return Some(string_from("Left"));
    }
    if eq_lit(code, "ArrowRight") {
        return Some(string_from("Right"));
    }
    if eq_lit(code, "ArrowUp") {
        return Some(string_from("Up"));
    }
    if eq_lit(code, "Backspace") {
        return Some(string_from("Backspace"));
    }
    if eq_lit(code, "CapsLock") {
        return Some(string_from("CapsLock"));
    }
    if eq_lit(code, "Delete") {
        return Some(string_from("Delete"));
    }
    if eq_lit(code, "End") {
        return Some(string_from("End"));
    }
    if eq_lit(code, "Enter") {
        return Some(string_from("Enter"));
    }
    if eq_lit(code, "Equal") {
        return Some(string_from("="));
    }
    if eq_lit(code, "Escape") {
        return Some(string_from("Escape"));
    }
    if eq_lit(code, "Home") {
        return Some(string_from("Home"));
    }
    if eq_lit(code, "Insert") {
        return Some(string_from("Insert"));
    }
    if eq_lit(code, "Minus") {
        return Some(string_from("-"));
    }
    if eq_lit(code, "NumpadAdd") {
        return Some(string_from("Num +"));
    }
    if eq_lit(code, "NumpadDecimal") {
        return Some(string_from("Num ."));
    }
    if eq_lit(code, "NumpadDivide") {
        return Some(string_from("Num /"));
    }
    if eq_lit(code, "NumpadEnter") {
        return Some(string_from("Num Enter"));
    }
    if eq_lit(code, "NumpadMultiply") {
        return Some(string_from("Num *"));
    }
    if eq_lit(code, "NumpadSubtract") {
        return Some(string_from("Num -"));
    }
    if eq_lit(code, "PageDown") {
        return Some(string_from("PageDown"));
    }
    if eq_lit(code, "PageUp") {
        return Some(string_from("PageUp"));
    }
    if eq_lit(code, "Pause") {
        return Some(string_from("Pause"));
    }
    if eq_lit(code, "Period") {
        return Some(string_from("."));
    }
    if eq_lit(code, "PrintScreen") {
        return Some(string_from("PrintScreen"));
    }
    if eq_lit(code, "ScrollLock") {
        return Some(string_from("ScrollLock"));
    }
    if eq_lit(code, "Semicolon") {
        return Some(string_from(";"));
    }
    if eq_lit(code, "Slash") {
        return Some(string_from("/"));
    }
    if eq_lit(code, "Space") {
        return Some(string_from("Space"));
    }
    if eq_lit(code, "Tab") {
        return Some(string_from("Tab"));
    }
    None
}

fn named_key_vk_exec(code: &[char]) -> (r: Option<u16>)
    ensures
        r == named_key_vk(code@),
{
    if eq_lit(code, "ArrowLeft") {
        return Some(0x25);
    }
    if eq_lit(code, "ArrowUp") {
        return Some(0x26);
    }
    if eq_lit(code, "ArrowRight") {
        return Some(0x27);
    }
    if eq_lit(code, "ArrowDown") {
        return Some(0x28);
    }
    if eq_lit(code, "Backspace") {
        return Some(0x08);
    }
    if eq_lit(code, "Tab") {
        return Some(0x09);
    }
    if eq_lit(code, "Enter") {
        return Some(0x0D);
    }
    if eq_lit(code, "NumpadEnter") {
        return Some(0x0D);
    }
    if eq_lit(code, "Pause") {
        return Some(0x13);
    }
    if eq_lit(code, "CapsLock") {
        return Some(0x14);
    }
    if eq_lit(code, "Escape") {
        return Some(0x1B);
    }
    if eq_lit(code, "Space") {
        return Some(0x20);
    }
    if eq_lit(code, "PageUp") {
        return Some(0x21);
    }
    if eq_lit(code, "PageDown") {
        return Some(0x22);
    }
    if eq_lit(code, "End") {
        return Some(0x23);
    }
    if eq_lit(code, "Home") {
        return Some(0x24);
    }
    if eq_lit(code, "Insert") {
        return Some(0x2D);
    }
    if eq_lit(code, "Delete") {
        return Some(0x2E);
    }
    if eq_lit(code, "PrintScreen") {
        return Some(0x2C);
    }
    if eq_lit(code, "ScrollLock") {
        return Some(0x91);
    }
    if eq_lit(code, "Minus") {
        return Some(0xBD);
    }
    if eq_lit(code, "Equal") {
        return Some(0xBB);
    }
    if eq_lit(code, "Semicolon") {
        return Some(0xBA);
    }
    if eq_lit(code, "Slash") {
        return Some(0xBF);
    }
    if eq_lit(code, "Period") {
        return Some(0xBE);
    }
    if eq_lit(code, "NumpadMultiply") {
        return Some(0x6A);
    }
    if eq_lit(code, "NumpadAdd") {
        return Some(0x6B);
    }
    if eq_lit(code, "NumpadSubtract") {
        return Some(0x6D);
    }
    if eq_lit(code, "NumpadDecimal") {
        return Some(0x6E);
    }
    if eq_lit(code, "NumpadDivide") {
        return Some(0x6F);
    }
    None
}

/// Whether `code` is `prefix` followed by exactly one ASCII character.
fn prefix_plus_ascii_exec(code: &[char], prefix: &str) -> (b: bool)
    ensures
        b == prefix_plus_ascii(code@, prefix@),
{
    let p = chars_of(prefix);
    if code.len() == 0 || code.len() - 1 != p.len() {
        return false;
    }
    if !starts_with_lit(code, prefix) {
        return false;
    }
    (code[code.len() - 1] as u32) < 0x80
}

/// The number of a function key, computed with the value capped at 1000
/// (which keeps every value above 24 above 24).
fn function_key_number_exec(code: &[char]) -> (r: Option<u16>)
    ensures
        match r {
            Some(v) => function_key_number(code@) == Some(v as nat),
            None => function_key_number(code@) is None,
        },
{
    let n = code.len();
    if n == 0 || code[0] != 'F' {
        return None;
    }
    let mut start: usize = 1;
    if n > 1 && code[1] == '+' {
        start = 2;
    }
    if start >= n {
        proof {
            let s = code@.drop_first();
            let digits = if s.len() > 0 && s[0] == '+' { s.drop_first() } else { s };
            assert(digits.len() == 0);
        }
        return None;
    }
    let ghost s = code@.drop_first();
    let ghost digits = if s.len() > 0 && s[0] == '+' { s.drop_first() } else { s };
    assert(digits =~= code@.skip(start as int));
    let mut acc: u32 = 0;
    let mut i: usize = start;
    while i < n
        invariant
            start <= i <= n,
            n == code@.len(),
            code@[0] == 'F',
            start < n,
            s == code@.drop_first(),
            digits == (if s.len() > 0 && s[0] == '+' { s.drop_first() } else { s }),
            digits =~= code@.skip(start as int),
            all_digits(digits.take(i - start)),
            acc as nat == if decimal_value(digits.take(i - start)) < 1000 {
                decimal_value(digits.take(i - start))
            } else {
                1000
            },
        decreases n - i,
    {
        let c = code[i];
        if !is_ascii_digit_exec(c) {
            assert(!is_ascii_digit_char(digits[i - start]));
            assert(!all_digits(digits));
            return None;
        }
        assert(is_ascii_digit_char(c));
        let d = (c as u32) - 0x30;
        proof {
            let t = digits.take(i - start);
            let t2 = digits.take(i + 1 - start);
            assert(t2.drop_last() =~= t);
            assert(t2.last() == c);
        }
        if acc >= 100 {
            acc = 1000;
        } else {
            acc = acc * 10 + d;
        }
        i = i + 1;
    }
    assert(digits.take(n - start) =~= digits);
    if 1 <= acc && acc <= 24 {
        Some(acc as u16)
    } else {
        None
    }
}

/// The label shown for a key code (`KeyK` shows as `K`, `Numpad5` as `Num 5`).
#[allow(dead_code)]
pub fn display_key_for_code(code: &str) -> (r: Option<String>)
    ensures
        match r {
            Some(s) => display_key_spec(code@) == Some(s@),
            None => display_key_spec(code@) is None,
        },
{
    let c = chars_of(code);
    let c = c.as_slice();
    proof {
        reveal_strlit("Key");
        reveal_strlit("Digit");
        reveal_strlit("Numpad");
    }
    if prefix_plus_ascii_exec(c, "Key") {
        let r = sub_chars(c, 3, 4);
        return Some(string_of(r.as_slice()));
    }
    if prefix_plus_ascii_exec(c, "Digit") {
        let r = sub_chars(c, 5, 6);
        return Some(string_of(r.as_slice()));
    }
    if function_key_number_exec(c).is_some() {
        return Some(string_of(c));
    }
    if prefix_plus_ascii_exec(c, "Numpad") && is_ascii_digit_exec(c[6]) {
        let mut s = string_from("Num ");
        push_char(&mut s, c[6]);
        return Some(s);
    }
    named_key_display_exec(c)
}

/// The Windows virtual-key code of a key code.
pub fn keyboard_code_to_vk(code: &str) -> (r: Option<u16>)
    ensures
        r == vk_spec(code@),
{
    let c = chars_of(code);
    keyboard_chars_to_vk(c.as_slice())
}

/// The Windows virtual-key code of a key code given as characters.
pub fn keyboard_chars_to_vk(c: &[char]) -> (r: Option<u16>)
    ensures
        r == vk_spec(c@),
{
    proof {
        reveal_strlit("Key");
        reveal_strlit("Digit");
        reveal_strlit("Numpad");
    }
    if prefix_plus_ascii_exec(c, "Key") && is_ascii_upper_exec(c[3]) {
        return Some(c[3] as u16);
    }
    if prefix_plus_ascii_exec(c, "Digit") && is_ascii_digit_exec(c[5]) {
        return Some(c[5] as u16);
    }
    match function_key_number_exec(c) {
        Some(v) => {
            return Some(0x70 + v - 1);
        },
        None => {},
    }
    if prefix_plus_ascii_exec(c, "Numpad") && is_ascii_digit_exec(c[6]) {
        let d = (c[6] as u32) - 0x30;
        return Some((0x60 + d) as u16);
    }
    named_key_vk_exec(c)
}


/// A named key code is a plain word: non-empty, ASCII letters only.
proof fn lemma_named_vk_code_plain(code: Seq<char>)
    requires
        named_key_vk(code) is Some,
    ensures
        code.len() > 0,
        crate::text::is_trimmed(code),
        !code.contains('+'),
{
    assert(code.len() > 0 && crate::text::is_trimmed(code) && !code.contains('+')) by {
        reveal_strlit("ArrowLeft");
        reveal_strlit("ArrowUp");
        reveal_strlit("ArrowRight");
        reveal_strlit("ArrowDown");
        reveal_strlit("Backspace");
        reveal_strlit("Tab");
        reveal_strlit("Enter");
        reveal_strlit("NumpadEnter");
        reveal_strlit("Pause");
        reveal_strlit("CapsLock");
        reveal_strlit("Escape");
        reveal_strlit("Space");
        reveal_strlit("PageUp");
        reveal_strlit("PageDown");
        reveal_strlit("End");
        reveal_strlit("Home");
        reveal_strlit("Insert");
        reveal_strlit("Delete");
        reveal_strlit("PrintScreen");
        reveal_strlit("ScrollLock");
        reveal_strlit("Minus");
        reveal_strlit("Equal");
        reveal_strlit("Semicolon");
        reveal_strlit("Slash");
        reveal_strlit("Period");
        reveal_strlit("NumpadMultiply");
        reveal_strlit("NumpadAdd");
        reveal_strlit("NumpadSubtract");
        reveal_strlit("NumpadDecimal");
        reveal_strlit("NumpadDivide");
    }
}

/// Every key code with a virtual-key code is non-empty and has no blank at
/// either end.
pub proof fn lemma_vk_code_trimmed(code: Seq<char>)
    requires
        vk_spec(code) is Some,
    ensures
        code.len() > 0,
        crate::text::is_trimmed(code),
{
    reveal_strlit("Key");
    reveal_strlit("Digit");
    reveal_strlit("Numpad");
    if prefix_plus_ascii(code, "Key"@) && is_ascii_upper_char(code[3]) {
        assert(code[0] == code.take(3)[0]);
    } else if prefix_plus_ascii(code, "Digit"@) && is_ascii_digit_char(code[5]) {
        assert(code[0] == code.take(5)[0]);
    } else if function_key_number(code) is Some {
        let rest = code.drop_first();
        let digits = if rest.len() > 0 && rest[0] == '+' {
            rest.drop_first()
        } else {
            rest
        };
        assert(digits.len() > 0 && crate::text::all_digits(digits));
        assert(code.last() == digits.last());
        assert(is_ascii_digit_char(digits[digits.len() - 1]));
    } else if prefix_plus_ascii(code, "Numpad"@) && is_ascii_digit_char(code[6]) {
        assert(code[0] == code.take(6)[0]);
    } else {
        lemma_named_vk_code_plain(code);
    }
}

} // verus!

verus! {

/// The virtual-key codes of the regular keys: `Key` and a capital letter is
/// that letter's code, `Digit` and a digit is that digit's code, `Numpad` and
/// a digit is 0x60 plus the digit, and `F1` to `F24` are 0x70 to 0x87.  Their
/// labels are the letter, the digit, `Num ` and the digit, and the code itself.
pub proof fn law_regular_key_codes(c: char, n: nat)
    ensures
        is_ascii_upper_char(c) ==> vk_spec("Key"@.push(c)) == Some(c as u16) && display_key_spec(
            "Key"@.push(c),
        ) == Some(seq![c]),
        is_ascii_digit_char(c) ==> vk_spec("Digit"@.push(c)) == Some(c as u16) && display_key_spec(
            "Digit"@.push(c),
        ) == Some(seq![c]),
        is_ascii_digit_char(c) ==> vk_spec("Numpad"@.push(c)) == Some((0x60 + digit_value(c)) as u16)
            && display_key_spec("Numpad"@.push(c)) == Some("Num "@.push(c)),
        1 <= n <= 24 ==> vk_spec("F"@ + decimal(n)) == Some((0x70 + n - 1) as u16)
            && display_key_spec("F"@ + decimal(n)) == Some("F"@ + decimal(n)),
{
    reveal_strlit("Key");
    reveal_strlit("Digit");
    reveal_strlit("Numpad");
    reveal_strlit("F");
    let k = "Key"@.push(c);
    assert(k.take(3) =~= "Key"@);
    assert(k.subrange(3, 4) =~= seq![c]);
    let d = "Digit"@.push(c);
    assert(d.take(5) =~= "Digit"@);
    assert(d.subrange(5, 6) =~= seq![c]);
    assert(!(d.len() == 4 && d.take(3) == "Key"@)) by {
        assert(d.len() == 6);
    }
    let p = "Numpad"@.push(c);
    assert(p.take(6) =~= "Numpad"@);
    assert(p.len() == 7);
    if is_ascii_digit_char(c) {
        assert(p[0] != 'F');
        assert(!(p.take(3) == "Key"@)) by {
            assert(p.take(3)[0] == 'N');
        }
        assert(!(p.take(5) == "Digit"@)) by {
            assert(p.take(5)[0] == 'N');
        }
    }
    if 1 <= n <= 24 {
        crate::text::lemma_decimal_digits(n);
        let f = "F"@ + decimal(n);
        assert(f.drop_first() =~= decimal(n));
        assert(decimal(n)[0] != '+') by {
            assert(is_ascii_digit_char(decimal(n)[0]));
        }
        assert(f.len() >= 2);
        assert(!prefix_plus_ascii(f, "Key"@)) by {
            if f.len() == 4 {
                assert(f.take(3)[0] == 'F');
            }
        }
        assert(!prefix_plus_ascii(f, "Digit"@)) by {
            if f.len() == 6 {
                assert(f.take(5)[0] == 'F');
            }
        }
        assert(function_key_number(f) == Some(n));
    }
}

} // verus!
