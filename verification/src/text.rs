//! Text helpers: UTF-16 encoding of window-system strings, and the window
//! classes that belong to the desktop shell.

use vstd::prelude::*;

verus! {

/// The UTF-16 code units that encode one character.
pub open spec fn utf16_units(c: char) -> Seq<u16> {
    let v = c as u32;
    if v < 0x10000 {
        seq![v as u16]
    } else {
        let u = (v - 0x10000) as u32;
        seq![(0xD800 + u / 1024) as u16, (0xDC00 + u % 1024) as u16]
    }
}

/// The UTF-16 encoding of a sequence of characters.
pub open spec fn encode_utf16(s: Seq<char>) -> Seq<u16>
    decreases s.len(),
{
    if s.len() == 0 {
        seq![]
    } else {
        encode_utf16(s.drop_last()) + utf16_units(s.last())
    }
}

/// The characters of a string, in order.
pub fn chars_of(s: &str) -> (v: Vec<char>)
    ensures
        v@ == s@,
{
    let mut v: Vec<char> = Vec::new();
    for c in it: s.chars()
        invariant
            v@ == it.seq().take(it.index()),
    {
        v.push(c);
    }
    v
}


/// The UTF-16 code units of one character, computed.
fn push_utf16(out: &mut Vec<u16>, c: char)
    ensures
        final(out)@ == old(out)@ + utf16_units(c),
{
    let v = c as u32;
    if v < 0x10000 {
        out.push(v as u16);
    } else {
        let u = v - 0x10000;
        assert(u <= 0xFFFFF);
        out.push((0xD800 + u / 1024) as u16);
        out.push((0xDC00 + u % 1024) as u16);
    }
}

/// Encodes `s` in UTF-16 and appends a terminating zero unit, the form in
/// which the window system takes its strings.
pub fn wide_string(s: &str) -> (w: Vec<u16>)
    ensures
        w@ == encode_utf16(s@).push(0u16),
{
    let chars = chars_of(s);
    let mut out: Vec<u16> = Vec::new();
    let mut i: usize = 0;
    while i < chars.len()
        invariant
            chars@ == s@,
            i <= chars.len(),
            out@ == encode_utf16(s@.take(i as int)),
        decreases chars.len() - i,
    {
        proof {
            assert(s@.take(i + 1).drop_last() =~= s@.take(i as int));
        }
        push_utf16(&mut out, chars[i]);
        i = i + 1;
    }
    assert(s@.take(chars.len() as int) =~= s@);
    out.push(0u16);
    out
}

/// Whether two character sequences are equal, compared element by element.
fn same_chars(a: &Vec<char>, b: &Vec<char>) -> (r: bool)
    ensures
        r == (a@ == b@),
{
    if a.len() != b.len() {
        return false;
    }
    let mut i: usize = 0;
    while i < a.len()
        invariant
            a.len() == b.len(),
            i <= a.len(),
            forall|k: int| 0 <= k < i ==> a@[k] == b@[k],
        decreases a.len() - i,
    {
        if a[i] != b[i] {
            return false;
        }
        i = i + 1;
    }
    assert(a@ =~= b@);
    true
}

/// Whether a string equals another, as characters.
pub fn str_equals(a: &str, b: &str) -> (r: bool)
    ensures
        r == (a@ == b@),
{
    let va = chars_of(a);
    let vb = chars_of(b);
    same_chars(&va, &vb)
}

/// The window classes of the desktop shell: the taskbars, the program
/// manager and the desktop worker windows.
pub open spec fn spec_is_system_window(class_name: Seq<char>) -> bool {
    ||| class_name == "Shell_TrayWnd"@
    ||| class_name == "Shell_SecondaryTrayWnd"@
    ||| class_name == "Progman"@
    ||| class_name == "WorkerW"@
}

/// Whether a window of class `class_name` belongs to the desktop shell, and is
/// therefore left out of the workspace.
pub fn is_system_window(class_name: &str) -> (r: bool)
    ensures
        r == spec_is_system_window(class_name@),
        r <==> (class_name@ == "Shell_TrayWnd"@ || class_name@ == "Shell_SecondaryTrayWnd"@
            || class_name@ == "Progman"@ || class_name@ == "WorkerW"@),
{
    str_equals(class_name, "Shell_TrayWnd") || str_equals(class_name, "Shell_SecondaryTrayWnd")
        || str_equals(class_name, "Progman") || str_equals(class_name, "WorkerW")
}


/// The UTF-16 units of a character decode back to it: a character of the
/// basic plane is one unit equal to its code; any other is a high surrogate
/// (0xD800..=0xDBFF) then a low surrogate (0xDC00..=0xDFFF) that carry its
/// code less 0x10000, ten bits each.
pub proof fn lemma_utf16_units_decode(c: char)
    ensures
        (c as u32) < 0x10000 ==> utf16_units(c).len() == 1 && utf16_units(c)[0] == c as u32,
        (c as u32) >= 0x10000 ==> {
            let hi = utf16_units(c)[0] as int;
            let lo = utf16_units(c)[1] as int;
            &&& utf16_units(c).len() == 2
            &&& 0xD800 <= hi <= 0xDBFF
            &&& 0xDC00 <= lo <= 0xDFFF
            &&& (hi - 0xD800) * 1024 + (lo - 0xDC00) + 0x10000 == c as u32
        },
{
    let v = c as u32;
    if v >= 0x10000 {
        let u = (v - 0x10000) as u32;
        assert(u <= 0xFFFFF);
        assert(u / 1024 <= 0x3FF);
        assert(u % 1024 < 1024);
        assert((u / 1024) * 1024 + u % 1024 == u);
    }
}

/// The UTF-16 encoding takes one or two units per character, and exactly one,
/// equal to the character's code, per character when all of them lie in the
/// basic plane.
pub proof fn lemma_encode_utf16_len(s: Seq<char>)
    ensures
        encode_utf16(s).len() >= s.len(),
        encode_utf16(s).len() <= 2 * s.len(),
        (forall|k: int| 0 <= k < s.len() ==> (#[trigger] s[k] as u32) < 0x10000) ==> encode_utf16(
            s,
        ).len() == s.len() && forall|k: int|
            0 <= k < s.len() ==> encode_utf16(s)[k] == #[trigger] s[k] as u32,
    decreases s.len(),
{
    if s.len() > 0 {
        let init = s.drop_last();
        lemma_encode_utf16_len(init);
        lemma_utf16_units_decode(s.last());
        if forall|k: int| 0 <= k < s.len() ==> (#[trigger] s[k] as u32) < 0x10000 {
            assert forall|k: int| 0 <= k < init.len() implies (#[trigger] init[k] as u32) < 0x10000 by {
                assert(init[k] == s[k]);
            }
            assert forall|k: int| 0 <= k < s.len() implies encode_utf16(s)[k] == #[trigger] s[k]
                as u32 by {
                if k < init.len() {
                    assert(init[k] == s[k]);
                } else {
                    assert(s[k] == s.last());
                }
            }
        }
    }
}

} // verus!
