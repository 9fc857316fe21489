//! The remembered window size.
//!
//! The size is kept as a line of text, `<width>x<height>`, in a small file.

use vstd::prelude::*;
use vstd::string::*;

use crate::text;
use crate::text::{chars_of, decimal_text, parse_i32, trim};

verus! {

/// The smallest width and height that are taken seriously.
pub const MIN_SIDE: i32 = 360;

/// The size to start with when none is remembered.
pub const DEFAULT_WIDTH: i32 = 560;

/// The size to start with when none is remembered.
pub const DEFAULT_HEIGHT: i32 = 640;

/// The size that a line of text spells: what stands before and after the first
/// `x`, as numbers.
pub open spec fn parsed_size(s: Seq<char>) -> Option<(i32, i32)> {
    let t = text::trimmed(s);
    match t.index_of_first('x') {
        None => None,
        Some(i) => match (text::parsed_i32(t.take(i)), text::parsed_i32(t.skip(i + 1))) {
            (Some(w), Some(h)) => Some((w, h)),
            _ => None,
        },
    }
}

/// The size to open the window with, given what the file holds, if anything.
pub open spec fn start_size(content: Option<Seq<char>>) -> (i32, i32) {
    match content {
        Some(s) => match parsed_size(s) {
            Some((w, h)) if w >= MIN_SIDE && h >= MIN_SIDE => (w, h),
            _ => (DEFAULT_WIDTH, DEFAULT_HEIGHT),
        },
        None => (DEFAULT_WIDTH, DEFAULT_HEIGHT),
    }
}

/// The text that remembers a size; none for bogus sizes, such as those of a
/// hidden window.
pub open spec fn size_line(w: i32, h: i32) -> Option<Seq<char>> {
    if w < MIN_SIDE || h < MIN_SIDE {
        None
    } else {
        Some(text::decimal(w as nat) + "x"@ + text::decimal(h as nat))
    }
}

/// The size that a line of text spells.
fn parse_size(s: &str) -> (r: Option<(i32, i32)>)
    ensures
        r == parsed_size(s@),
{
    let t = trim(s);
    let chars = chars_of(t.as_str());
    let n: usize = chars.len();
    let mut i: usize = 0;
    while i < n && chars[i] != 'x'
        invariant
            i <= n == chars@.len(),
            forall|j: int| 0 <= j < i ==> chars@[j] != 'x',
        decreases n - i,
    {
        i = i + 1;
    }
    proof {
        t@.index_of_first_ensures('x');
        if i < n {
            assert(t@.contains('x'));
            let f = t@.index_of_first('x')->0;
            assert(f == i);
            assert(t@.subrange(0, i as int) =~= t@.take(i as int));
            assert(t@.subrange(i + 1, n as int) =~= t@.skip(i + 1));
        } else if t@.contains('x') {
            assert(chars@[t@.index_of('x')] == 'x');
        }
    }
    if i == n {
        return None;
    }
    let w: Option<i32> = parse_i32(t.as_str().substring_char(0, i));
    let h: Option<i32> = parse_i32(t.as_str().substring_char(i + 1, n));
    match (w, h) {
        (Some(w), Some(h)) => Some((w, h)),
        _ => None,
    }
}

/// The saved window size as `(width, height)`, falling back to a sane default.
/// `content` is what the file holds, if it could be read.
pub fn load_window_size(content: Option<&str>) -> (r: (i32, i32))
    ensures
        r == start_size(
            match content {
                Some(s) => Some(s@),
                None => None,
            },
        ),
{
    if let Some(s) = content {
        if let Some((w, h)) = parse_size(s) {
            if w >= MIN_SIDE && h >= MIN_SIDE {
                return (w, h);
            }
        }
    }
    (DEFAULT_WIDTH, DEFAULT_HEIGHT)
}

/// What to write to remember the current window size, if it is worth it.
pub fn save_window_size(w: i32, h: i32) -> (r: Option<String>)
    ensures
        match r {
            Some(s) => size_line(w, h) == Some(s@),
            None => size_line(w, h) is None,
        },
{
    if w < MIN_SIDE || h < MIN_SIDE {
        return None;
    }
    let mut line = decimal_text(w as u64);
    line.append("x");
    line.append(decimal_text(h as u64).as_str());
    Some(line)
}

/// What is remembered comes back: every size that is saved is loaded as it was.
pub proof fn law_saved_size_is_loaded(w: i32, h: i32)
    requires
        size_line(w, h) is Some,
    ensures
        start_size(size_line(w, h)) == (w, h),
{
    let a = text::decimal(w as nat);
    let b = text::decimal(h as nat);
    let s = size_line(w, h)->0;
    reveal_strlit("x");
    text::law_decimal_spells_the_number(w as nat);
    text::law_decimal_spells_the_number(h as nat);
    assert(s[0] == a[0]);
    assert(s.last() == b[b.len() - 1]);
    assert(text::is_digit(a[0]) && text::is_digit(b[b.len() - 1]));
    assert(text::trimmed(s) == s);
    assert(s[a.len() as int] == 'x');
    s.index_of_first_ensures('x');
    assert(s.contains('x'));
    let f = s.index_of_first('x')->0;
    assert(f == a.len()) by {
        if f < a.len() {
            assert(s[f] == a[f]);
            assert(text::is_digit(a[f]));
        }
    }
    assert(s.take(f) =~= a);
    assert(s.skip(f + 1) =~= b);
    assert(text::is_digit(b[0]));
    assert(text::digits_part(a) == a);
    assert(text::digits_part(b) == b);
}

// ---------------------------------------------------------------------------
// Laws
// ---------------------------------------------------------------------------

/// A size is saved exactly if both sides have at least 360 pixels, as the width, an
/// `x` and the height.
pub proof fn law_only_real_sizes_are_saved(w: i32, h: i32, r: Option<String>)
    requires
        call_ensures(save_window_size, (w, h), r),
    ensures
        w < 360 || h < 360 ==> r is None,
        w >= 360 && h >= 360 ==> (r matches Some(s) && s@ == text::decimal(w as nat) + seq!['x']
            + text::decimal(h as nat)),
{
    reveal_strlit("x");
    assert("x"@ =~= seq!['x']);
}

/// What is saved is loaded again as it was.
pub proof fn law_saving_and_loading_agree(w: i32, h: i32, s: String, content: &str, r: (i32, i32))
    requires
        call_ensures(save_window_size, (w, h), Some(s)),
        content@ == s@,
        call_ensures(load_window_size, (Some(content),), r),
    ensures
        r == (w, h),
{
    law_saved_size_is_loaded(w, h);
}

/// Without a remembered size, or with one that has a side below 360 pixels, the
/// window opens with 560 by 640; a size that is spelled with its sides before and
/// behind the first `x`, with or without white space around it, is taken.
pub proof fn law_loaded_sizes(
    content: Option<&str>,
    r: (i32, i32),
    t: Seq<char>,
    i: int,
    w: Option<i32>,
    h: Option<i32>,
)
    requires
        call_ensures(load_window_size, (content,), r),
        content matches Some(s) ==> t == text::trimmed(s@),
        0 <= i < t.len() ==> t[i] == 'x' && w == text::parsed_i32(t.take(i)) && h == text::parsed_i32(
            t.skip(i + 1),
        ),
        0 <= i <= t.len(),
        forall|j: int| 0 <= j < i ==> #[trigger] t[j] != 'x',
    ensures
        content is None ==> r == (560i32, 640i32),
        content is Some && i == t.len() ==> r == (560i32, 640i32),
        content is Some && i < t.len() && (w is None || h is None || w->0 < 360 || h->0 < 360) ==> r == (
            560i32,
            640i32,
        ),
        content is Some && i < t.len() && w is Some && h is Some && w->0 >= 360 && h->0 >= 360 ==> r == (
            w->0,
            h->0,
        ),
{
    t.index_of_first_ensures('x');
    if i < t.len() {
        assert(t.contains('x'));
        let f = t.index_of_first('x')->0;
        assert(f == i);
    } else if t.contains('x') {
        assert(t[t.index_of('x')] == 'x');
    }
}

} // verus!
