//! Matching parentheses in the text being edited.

use vstd::prelude::*;
use crate::text::{chars_of, string_from_chars};

verus! {

/// A text and the position of the cursor in it, counted in characters.
pub struct StringWithCursor<'a> {
    pub string: &'a str,
    pub cursor: usize,
}

/// What to highlight around the cursor.
#[derive(Debug, PartialEq, Eq, Clone, Copy, Structural)]
pub enum HighlightedParens {
    /// The cursor is not on a parenthesis.
    NotOnParen,
    /// The parenthesis under the cursor and its partner, the opening one first.
    Matched(usize, usize),
    /// The opening parenthesis under the cursor has no partner.
    UnbalancedOpen(usize),
    /// The closing parenthesis under the cursor has no partner.
    UnbalancedClose(usize),
}

/// The number of `c` in `s[lo..hi)`, counted from the end.
pub open spec fn count_up(s: Seq<char>, c: char, lo: int, hi: int) -> int
    decreases hi - lo,
{
    if hi <= lo { 0 } else { count_up(s, c, lo, hi - 1) + if s[hi - 1] == c { 1int } else { 0int } }
}

/// The number of `c` in `s[lo..hi)`, counted from the start.
pub open spec fn count_down(s: Seq<char>, c: char, lo: int, hi: int) -> int
    decreases hi - lo,
{
    if hi <= lo { 0 } else { (if s[lo] == c { 1int } else { 0int }) + count_down(s, c, lo + 1, hi) }
}

/// Opening minus closing parentheses in `s[from..=i]`.
pub open spec fn open_balance(s: Seq<char>, from: int, i: int) -> int {
    count_up(s, '(', from, i + 1) - count_up(s, ')', from, i + 1)
}

/// Closing minus opening parentheses in `s[i..=to]`.
pub open spec fn close_balance(s: Seq<char>, i: int, to: int) -> int {
    count_down(s, ')', i, to + 1) - count_down(s, '(', i, to + 1)
}

/// What `highlight_parens` gives for the text `s` with the cursor at `cursor`: for an opening
/// parenthesis, the first position after it where as many parentheses have closed as have
/// opened; for a closing one, the last position before it where that holds, looking back.
pub open spec fn highlighted(s: Seq<char>, cursor: int, r: HighlightedParens) -> bool {
    match r {
        HighlightedParens::NotOnParen => cursor >= s.len() || (s[cursor] != '(' && s[cursor] != ')'),
        HighlightedParens::Matched(a, b) => 0 <= cursor < s.len() && (
            (s[cursor] == '(' && a == cursor && cursor <= b < s.len() && open_balance(s, cursor, b as int) == 0
                && forall|i: int| cursor <= i < b ==> #[trigger] open_balance(s, cursor, i) != 0)
            || (s[cursor] == ')' && b == cursor && 0 <= a <= cursor && close_balance(s, a as int, cursor) == 0
                && forall|i: int| a < i <= cursor ==> #[trigger] close_balance(s, i, cursor) != 0)),
        HighlightedParens::UnbalancedOpen(x) => 0 <= cursor < s.len() && x == cursor && s[cursor] == '('
            && forall|i: int| cursor <= i < s.len() ==> #[trigger] open_balance(s, cursor, i) != 0,
        HighlightedParens::UnbalancedClose(x) => 0 <= cursor < s.len() && x == cursor && s[cursor] == ')'
            && forall|i: int| 0 <= i <= cursor ==> #[trigger] close_balance(s, i, cursor) != 0,
    }
}

proof fn lemma_count_up_bound(s: Seq<char>, c: char, lo: int, hi: int)
    ensures
        0 <= count_up(s, c, lo, hi) <= if hi > lo { hi - lo } else { 0 },
    decreases hi - lo,
{
    if hi > lo {
        lemma_count_up_bound(s, c, lo, hi - 1);
    }
}

proof fn lemma_count_down_bound(s: Seq<char>, c: char, lo: int, hi: int)
    ensures
        0 <= count_down(s, c, lo, hi) <= if hi > lo { hi - lo } else { 0 },
    decreases hi - lo,
{
    if hi > lo {
        lemma_count_down_bound(s, c, lo + 1, hi);
    }
}

/// The parenthesis under the cursor and its partner.
pub fn highlight_parens(sc: StringWithCursor) -> (r: HighlightedParens)
    ensures
        highlighted(sc.string@, sc.cursor as int, r),
{
    let chars = chars_of(sc.string);
    let n = chars.len();
    if n == 0 || sc.cursor >= n {
        return HighlightedParens::NotOnParen;
    }
    let c = sc.cursor;
    let ghost s = chars@;
    if chars[c] == '(' {
        let mut level: i128 = 0;
        let mut i: usize = c;
        while i < n
            invariant
                s == chars@,
                s == sc.string@,
                c == sc.cursor,
                n == s.len(),
                c <= i <= n,
                c < n,
                s[c as int] == '(',
                level == count_up(s, '(', c as int, i as int) - count_up(s, ')', c as int, i as int),
                -(i - c) <= level <= i - c,
                i > c ==> level != 0,
                forall|j: int| c <= j < i ==> #[trigger] open_balance(s, c as int, j) != 0,
            decreases n - i,
        {
            proof {
                lemma_count_up_bound(s, '(', c as int, i as int);
                lemma_count_up_bound(s, ')', c as int, i as int);
            }
            let ch = chars[i];
            if ch == '(' {
                level = level + 1;
            } else if ch == ')' {
                level = level - 1;
            }
            proof {
                assert(count_up(s, '(', c as int, i + 1) == count_up(s, '(', c as int, i as int) + if s[i as int] == '(' { 1int } else { 0int });
                assert(count_up(s, ')', c as int, i + 1) == count_up(s, ')', c as int, i as int) + if s[i as int] == ')' { 1int } else { 0int });
                assert(open_balance(s, c as int, i as int) == level);
            }
            if level == 0 {
                return HighlightedParens::Matched(c, i);
            }
            i = i + 1;
        }
        HighlightedParens::UnbalancedOpen(c)
    } else if chars[c] == ')' {
        let mut level: i128 = 0;
        let mut i: usize = c;
        loop
            invariant
                s == chars@,
                s == sc.string@,
                c == sc.cursor,
                n == s.len(),
                i <= c < n,
                s[c as int] == ')',
                level == count_down(s, ')', i as int + 1, c as int + 1) - count_down(s, '(', i as int + 1, c as int + 1),
                -(c - i) <= level <= c - i,
                i < c ==> level != 0,
                forall|j: int| i < j <= c ==> #[trigger] close_balance(s, j, c as int) != 0,
            decreases i,
        {
            let ch = chars[i];
            if ch == ')' {
                level = level + 1;
            } else if ch == '(' {
                level = level - 1;
            }
            proof {
                assert(count_down(s, ')', i as int, c + 1) == (if s[i as int] == ')' { 1int } else { 0int }) + count_down(s, ')', i + 1, c + 1));
                assert(count_down(s, '(', i as int, c + 1) == (if s[i as int] == '(' { 1int } else { 0int }) + count_down(s, '(', i + 1, c + 1));
                assert(close_balance(s, i as int, c as int) == level);
            }
            if level == 0 {
                return HighlightedParens::Matched(i, c);
            }
            if i == 0 {
                return HighlightedParens::UnbalancedClose(c);
            }
            i = i - 1;
        }
    } else {
        HighlightedParens::NotOnParen
    }
}


/// How a piece of the edited text is shown.
#[derive(Debug, PartialEq, Eq, Clone, Copy, Structural)]
pub enum Shade {
    Plain,
    /// A parenthesis and its partner.
    Matched,
    /// A parenthesis without a partner.
    Unbalanced,
}

/// A piece of the edited text and how it is shown.
pub struct Segment {
    pub text: String,
    pub shade: Shade,
}

/// The pieces that show `s` with the parentheses of `h` marked, in order.
pub open spec fn layout(s: Seq<char>, h: HighlightedParens) -> Seq<(Seq<char>, Shade)> {
    match h {
        HighlightedParens::NotOnParen => seq![(s, Shade::Plain)],
        HighlightedParens::Matched(a, b) => seq![
            (s.take(a as int), Shade::Plain),
            (seq![s[a as int]], Shade::Matched),
            (s.subrange(a + 1, b as int), Shade::Plain),
            (seq![s[b as int]], Shade::Matched),
            (s.skip(b + 1), Shade::Plain),
        ],
        HighlightedParens::UnbalancedOpen(x) => seq![
            (s.take(x as int), Shade::Plain),
            (seq![s[x as int]], Shade::Unbalanced),
            (s.skip(x + 1), Shade::Plain),
        ],
        HighlightedParens::UnbalancedClose(x) => seq![
            (s.take(x as int), Shade::Plain),
            (seq![s[x as int]], Shade::Unbalanced),
            (s.skip(x + 1), Shade::Plain),
        ],
    }
}

/// What the pieces hold, as plain values.
pub open spec fn segments_view(v: Seq<Segment>) -> Seq<(Seq<char>, Shade)> {
    v.map_values(|g: Segment| (g.text@, g.shade))
}

/// The piece `chars[lo..hi)`.
fn piece(chars: &Vec<char>, lo: usize, hi: usize, shade: Shade) -> (r: Segment)
    requires
        lo <= hi <= chars@.len(),
    ensures
        r.text@ == chars@.subrange(lo as int, hi as int),
        r.shade == shade,
{
    let mut v: Vec<char> = Vec::new();
    let mut k: usize = lo;
    while k < hi
        invariant
            lo <= k <= hi <= chars@.len(),
            v@ == chars@.subrange(lo as int, k as int),
        decreases hi - k,
    {
        v.push(chars[k]);
        k = k + 1;
        assert(v@ =~= chars@.subrange(lo as int, k as int));
    }
    Segment { text: string_from_chars(&v), shade }
}

/// The edited text `text` cut into pieces, with the parenthesis at `cursor` and its partner
/// marked, or the parenthesis at `cursor` marked as unbalanced.
pub fn highlight_parens_layout(cursor: usize, text: &str) -> (r: Vec<Segment>)
    ensures
        exists|h: HighlightedParens| #[trigger] highlighted(text@, cursor as int, h)
            && segments_view(r@) == layout(text@, h),
{
    let h = highlight_parens(StringWithCursor { string: text, cursor });
    let chars = chars_of(text);
    let n = chars.len();
    let mut r: Vec<Segment> = Vec::new();
    match h {
        HighlightedParens::NotOnParen => {
            r.push(piece(&chars, 0, n, Shade::Plain));
        },
        HighlightedParens::Matched(a, b) => {
            proof {
                let s = text@;
                if b == a {
                    assert(count_up(s, '(', a as int, a as int) == 0);
                    assert(count_up(s, ')', a as int, a as int) == 0);
                    assert(count_down(s, ')', a + 1, a + 1) == 0);
                    assert(count_down(s, '(', a + 1, a + 1) == 0);
                    if s[cursor as int] == '(' {
                        assert(count_up(s, '(', a as int, a + 1) == 1);
                        assert(count_up(s, ')', a as int, a + 1) == 0);
                    } else {
                        assert(count_down(s, ')', a as int, a + 1) == 1);
                        assert(count_down(s, '(', a as int, a + 1) == 0);
                    }
                }
            }
            r.push(piece(&chars, 0, a, Shade::Plain));
            r.push(piece(&chars, a, a + 1, Shade::Matched));
            r.push(piece(&chars, a + 1, b, Shade::Plain));
            r.push(piece(&chars, b, b + 1, Shade::Matched));
            r.push(piece(&chars, b + 1, n, Shade::Plain));
        },
        HighlightedParens::UnbalancedOpen(x) => {
            r.push(piece(&chars, 0, x, Shade::Plain));
            r.push(piece(&chars, x, x + 1, Shade::Unbalanced));
            r.push(piece(&chars, x + 1, n, Shade::Plain));
        },
        HighlightedParens::UnbalancedClose(x) => {
            r.push(piece(&chars, 0, x, Shade::Plain));
            r.push(piece(&chars, x, x + 1, Shade::Unbalanced));
            r.push(piece(&chars, x + 1, n, Shade::Plain));
        },
    }
    proof {
        let s = text@;
        assert(chars@ == s);
        match h {
            HighlightedParens::NotOnParen => {
                assert(s.subrange(0, s.len() as int) =~= s);
            },
            HighlightedParens::Matched(a, b) => {
                assert(s.subrange(0, a as int) =~= s.take(a as int));
                assert(s.subrange(a as int, a + 1) =~= seq![s[a as int]]);
                assert(s.subrange(b as int, b + 1) =~= seq![s[b as int]]);
                assert(s.subrange(b + 1, s.len() as int) =~= s.skip(b + 1));
            },
            HighlightedParens::UnbalancedOpen(x) => {
                assert(s.subrange(0, x as int) =~= s.take(x as int));
                assert(s.subrange(x as int, x + 1) =~= seq![s[x as int]]);
                assert(s.subrange(x + 1, s.len() as int) =~= s.skip(x + 1));
            },
            HighlightedParens::UnbalancedClose(x) => {
                assert(s.subrange(0, x as int) =~= s.take(x as int));
                assert(s.subrange(x as int, x + 1) =~= seq![s[x as int]]);
                assert(s.subrange(x + 1, s.len() as int) =~= s.skip(x + 1));
            },
        }
        assert(segments_view(r@) =~= layout(s, h));
    }
    r
}

} // verus!
