//! Width-aware text layout: wraps a character stream into lines for a
//! 384-pixel-wide canvas.
//!
//! Character widths are measured in half-units so that all arithmetic stays
//! integral: a narrow glyph (codepoint at most 256) is one half-unit (0.5
//! width units), a wide glyph is two (1.0 width units).  The per-line budget
//! is `floor(384 / font_size) - 2` width units, i.e. twice that in
//! half-units.

use vstd::prelude::*;

verus! {

/// Classification of a glyph by the horizontal space it takes.
#[derive(PartialEq, Eq, Structural, Clone, Copy, Debug)]
pub enum WidthClass {
    /// Half a width unit: codepoints up to 256.
    Narrow,
    /// A full width unit: all other codepoints.
    Wide,
}

/// The class of a character, a pure function of its codepoint.
pub open spec fn width_class_spec(c: char) -> WidthClass {
    if c as u32 <= 256 {
        WidthClass::Narrow
    } else {
        WidthClass::Wide
    }
}

/// Classifies a character as narrow or wide.
pub fn width_class(c: char) -> (r: WidthClass)
    ensures
        r == width_class_spec(c),
{
    if c as u32 <= 256 {
        WidthClass::Narrow
    } else {
        WidthClass::Wide
    }
}

/// Width of a character in half-units.  A literal newline never occupies
/// space in a line; it only ends one.
pub open spec fn char_width(c: char) -> int {
    if c == '\n' {
        0
    } else if c as u32 <= 256 {
        1
    } else {
        2
    }
}

/// Accumulated width of a line, in half-units.
pub open spec fn line_width(s: Seq<char>) -> int
    decreases s.len(),
{
    if s.len() == 0 {
        0
    } else {
        line_width(s.drop_last()) + char_width(s.last())
    }
}

/// Per-line budget in half-units for a given font size.
pub open spec fn budget2_spec(font_size: u32) -> int {
    2 * (384int / font_size as int - 2)
}

/// One step at a time, the greedy single-pass wrap.  `cur` is the line being
/// filled, `acc` the lines already flushed.  A character that would push the
/// line past the budget flushes the line first; a literal newline flushes
/// the line and then an empty line, giving each explicit break a blank line
/// of its own.  At the end a non-empty pending line is flushed, an empty one
/// is dropped.
pub open spec fn layout_go(cs: Seq<char>, budget2: int, cur: Seq<char>, acc: Seq<Seq<char>>) -> Seq<
    Seq<char>,
>
    decreases cs.len(),
{
    if cs.len() == 0 {
        if cur.len() == 0 {
            acc
        } else {
            acc.push(cur)
        }
    } else {
        let c = cs[0];
        let rest = cs.drop_first();
        if c == '\n' {
            if 0 > budget2 {
                layout_go(
                    rest,
                    budget2,
                    Seq::empty(),
                    acc.push(cur).push(Seq::empty()).push(Seq::empty()),
                )
            } else {
                layout_go(rest, budget2, Seq::empty(), acc.push(cur).push(Seq::empty()))
            }
        } else {
            let l = char_width(c);
            if line_width(cur) + l > budget2 {
                layout_go(rest, budget2, Seq::empty().push(c), acc.push(cur))
            } else {
                layout_go(rest, budget2, cur.push(c), acc)
            }
        }
    }
}

/// The lines laid out for a character stream under a half-unit budget.
pub open spec fn layout_spec(cs: Seq<char>, budget2: int) -> Seq<Seq<char>> {
    layout_go(cs, budget2, Seq::empty(), Seq::empty())
}

/// View of a vector of lines as a sequence of character sequences.
pub open spec fn lines_view(v: Seq<Vec<char>>) -> Seq<Seq<char>> {
    v.map_values(|l: Vec<char>| l@)
}

/// Wraps a character stream into lines.  `budget2` is the line budget in
/// half-units; it may be negative (a degenerate font size), in which case
/// every character lands on a line of its own.
pub fn layout_chars(cs: &Vec<char>, budget2: i32) -> (r: Vec<Vec<char>>)
    ensures
        lines_view(r@) == layout_spec(cs@, budget2 as int),
{
    let ghost whole: Seq<Seq<char>> = layout_spec(cs@, budget2 as int);
    let mut acc: Vec<Vec<char>> = Vec::new();
    let mut cur: Vec<char> = Vec::new();
    let mut w: i32 = 0;
    let mut i: usize = 0;
    proof {
        assert(cs@.skip(0) =~= cs@);
        assert(lines_view(Seq::<Vec<char>>::empty()) =~= Seq::<Seq<char>>::empty());
    }
    while i < cs.len()
        invariant
            i <= cs@.len(),
            w as int == line_width(cur@),
            0 <= w as int <= if budget2 as int >= 2 {
                budget2 as int
            } else {
                2
            },
            layout_go(cs@.skip(i as int), budget2 as int, cur@, lines_view(acc@)) == whole,
        decreases cs@.len() - i,
    {
        let ghost pre_cs = cs@.skip(i as int);
        let ghost pre_cur = cur@;
        let ghost pre_acc = lines_view(acc@);
        let c = cs[i];
        proof {
            assert(pre_cs[0] == cs@[i as int]);
            assert(pre_cs.drop_first() =~= cs@.skip(i as int + 1));
        }
        if c == '\n' {
            let flushed = cur;
            let ghost fl = flushed@;
            cur = Vec::new();
            w = 0;
            acc.push(flushed);
            acc.push(Vec::new());
            if 0 > budget2 {
                acc.push(Vec::new());
                proof {
                    assert(lines_view(acc@) =~= pre_acc.push(fl).push(Seq::empty()).push(
                        Seq::empty(),
                    ));
                    assert(layout_go(pre_cs, budget2 as int, pre_cur, pre_acc) == layout_go(
                        cs@.skip(i as int + 1),
                        budget2 as int,
                        cur@,
                        lines_view(acc@),
                    ));
                }
            } else {
                proof {
                    assert(lines_view(acc@) =~= pre_acc.push(fl).push(Seq::empty()));
                    assert(layout_go(pre_cs, budget2 as int, pre_cur, pre_acc) == layout_go(
                        cs@.skip(i as int + 1),
                        budget2 as int,
                        cur@,
                        lines_view(acc@),
                    ));
                }
            }
        } else {
            let l: i32 = if (c as u32) <= 256 {
                1
            } else {
                2
            };
            proof {
                assert(char_width(c) == l as int);
            }
            if (w as i64) + (l as i64) > (budget2 as i64) {
                let flushed = cur;
                let ghost fl = flushed@;
                cur = Vec::new();
                w = 0;
                acc.push(flushed);
                proof {
                    assert(lines_view(acc@) =~= pre_acc.push(fl));
                }
            }
            proof {
                assert(cur@.push(c).drop_last() =~= cur@);
                assert(line_width(cur@.push(c)) == line_width(cur@) + char_width(c));
            }
            cur.push(c);
            w = w + l;
            proof {
                if line_width(pre_cur) + char_width(c) > budget2 as int {
                    assert(cur@ =~= Seq::<char>::empty().push(c));
                    assert(layout_go(pre_cs, budget2 as int, pre_cur, pre_acc) == layout_go(
                        cs@.skip(i as int + 1),
                        budget2 as int,
                        cur@,
                        lines_view(acc@),
                    ));
                } else {
                    assert(cur@ =~= pre_cur.push(c));
                    assert(lines_view(acc@) == pre_acc);
                    assert(layout_go(pre_cs, budget2 as int, pre_cur, pre_acc) == layout_go(
                        cs@.skip(i as int + 1),
                        budget2 as int,
                        cur@,
                        lines_view(acc@),
                    ));
                }
            }
        }
        i = i + 1;
    }
    proof {
        assert(cs@.skip(i as int) =~= Seq::<char>::empty());
    }
    if cur.len() > 0 {
        let ghost cl = cur@;
        let ghost pre_acc = lines_view(acc@);
        acc.push(cur);
        proof {
            assert(lines_view(acc@) =~= pre_acc.push(cl));
        }
    }
    acc
}

/// The separator dashes prepended before the caller's text.
pub open spec fn dash_run() -> Seq<char> {
    Seq::new(27, |i: int| '-')
}

/// The trailing whitespace appended after the caller's text to force a final
/// flush of any pending partial line.
pub open spec fn space_run() -> Seq<char> {
    Seq::new(135, |i: int| ' ')
}

/// The character stream actually laid out for a text: a separator line of 27
/// dashes, a break, the text, a break, then 27 x 5 spaces of flush padding.
pub open spec fn compose_spec(text: Seq<char>) -> Seq<char> {
    dash_run() + seq!['\n'] + text + seq!['\n'] + space_run()
}

/// Builds the composed character stream for a text.
pub fn compose_text(text: &Vec<char>) -> (r: Vec<char>)
    ensures
        r@ == compose_spec(text@),
{
    let mut r: Vec<char> = Vec::new();
    let mut i: usize = 0;
    while i < 27
        invariant
            i <= 27,
            r@ =~= dash_run().subrange(0, i as int),
        decreases 27 - i,
    {
        r.push('-');
        i = i + 1;
        proof {
            assert(r@ =~= dash_run().subrange(0, i as int));
        }
    }
    r.push('\n');
    let mut j: usize = 0;
    while j < text.len()
        invariant
            j <= text@.len(),
            r@ =~= dash_run() + seq!['\n'] + text@.subrange(0, j as int),
        decreases text@.len() - j,
    {
        r.push(text[j]);
        j = j + 1;
        proof {
            assert(r@ =~= dash_run() + seq!['\n'] + text@.subrange(0, j as int));
        }
    }
    r.push('\n');
    let mut k: usize = 0;
    while k < 135
        invariant
            k <= 135,
            r@ =~= dash_run() + seq!['\n'] + text@ + seq!['\n'] + space_run().subrange(0, k as int),
        decreases 135 - k,
    {
        r.push(' ');
        k = k + 1;
        proof {
            assert(r@ =~= dash_run() + seq!['\n'] + text@ + seq!['\n'] + space_run().subrange(
                0,
                k as int,
            ));
        }
    }
    proof {
        assert(r@ =~= compose_spec(text@));
    }
    r
}

/// Lays out a caller's text for the given font size: composes the separator,
/// text and flush padding, then wraps under the budget
/// `floor(384 / font_size) - 2` width units.
pub fn layout_text(text: &Vec<char>, font_size: u32) -> (r: Vec<Vec<char>>)
    requires
        font_size >= 1,
    ensures
        lines_view(r@) == layout_spec(compose_spec(text@), budget2_spec(font_size)),
{
    let composed = compose_text(text);
    let units: u32 = 384 / font_size;
    let budget2: i32 = 2 * (units as i32 - 2);
    layout_chars(&composed, budget2)
}

/// Pushing a character onto a line adds exactly its width.
proof fn lemma_line_width_push(s: Seq<char>, c: char)
    ensures
        line_width(s.push(c)) == line_width(s) + char_width(c),
{
    assert(s.push(c).drop_last() =~= s);
}

proof fn lemma_layout_go_widths(cs: Seq<char>, b: int, cur: Seq<char>, acc: Seq<Seq<char>>)
    requires
        b >= 2,
        line_width(cur) <= b,
        forall|i: int| 0 <= i < acc.len() ==> line_width(#[trigger] acc[i]) <= b,
    ensures
        forall|i: int|
            0 <= i < layout_go(cs, b, cur, acc).len() ==> line_width(
                #[trigger] layout_go(cs, b, cur, acc)[i],
            ) <= b,
    decreases cs.len(),
{
    if cs.len() == 0 {
    } else {
        let c = cs[0];
        let rest = cs.drop_first();
        if c == '\n' {
            let acc2 = acc.push(cur).push(Seq::empty());
            assert(line_width(Seq::<char>::empty()) == 0);
            assert(forall|i: int| 0 <= i < acc2.len() ==> line_width(#[trigger] acc2[i]) <= b);
            lemma_layout_go_widths(rest, b, Seq::empty(), acc2);
            assert(layout_go(cs, b, cur, acc) == layout_go(rest, b, Seq::empty(), acc2));
        } else {
            let l = char_width(c);
            if line_width(cur) + l > b {
                let one = Seq::<char>::empty().push(c);
                lemma_line_width_push(Seq::empty(), c);
                assert(line_width(one) == l);
                let acc2 = acc.push(cur);
                assert(forall|i: int| 0 <= i < acc2.len() ==> line_width(#[trigger] acc2[i]) <= b);
                lemma_layout_go_widths(rest, b, one, acc2);
                assert(layout_go(cs, b, cur, acc) == layout_go(rest, b, one, acc2));
            } else {
                lemma_line_width_push(cur, c);
                lemma_layout_go_widths(rest, b, cur.push(c), acc);
                assert(layout_go(cs, b, cur, acc) == layout_go(rest, b, cur.push(c), acc));
            }
        }
    }
}

/// Budget law: as long as the budget admits at least one wide character
/// (two half-units), every laid-out line's accumulated width stays within
/// the budget — lines ended by an explicit newline included.
pub proof fn lemma_lines_within_budget(cs: Seq<char>, budget2: int)
    requires
        budget2 >= 2,
    ensures
        forall|i: int|
            0 <= i < layout_spec(cs, budget2).len() ==> line_width(
                #[trigger] layout_spec(cs, budget2)[i],
            ) <= budget2,
{
    lemma_layout_go_widths(cs, budget2, Seq::empty(), Seq::empty());
}

proof fn lemma_layout_go_chars(
    cs: Seq<char>,
    b: int,
    cur: Seq<char>,
    acc: Seq<Seq<char>>,
    p: spec_fn(char) -> bool,
)
    requires
        forall|i: int| 0 <= i < cs.len() ==> cs[i] == '\n' || p(#[trigger] cs[i]),
        forall|i: int| 0 <= i < cur.len() ==> p(#[trigger] cur[i]),
        forall|i: int, j: int|
            0 <= i < acc.len() && 0 <= j < acc[i].len() ==> p(#[trigger] acc[i][j]),
    ensures
        forall|i: int, j: int|
            0 <= i < layout_go(cs, b, cur, acc).len() && 0 <= j < layout_go(cs, b, cur, acc)[i].len()
                ==> p(#[trigger] layout_go(cs, b, cur, acc)[i][j]),
    decreases cs.len(),
{
    if cs.len() == 0 {
    } else {
        let c = cs[0];
        let rest = cs.drop_first();
        if c == '\n' {
            if 0 > b {
                let acc2 = acc.push(cur).push(Seq::empty()).push(Seq::empty());
                lemma_layout_go_chars(rest, b, Seq::empty(), acc2, p);
                assert(layout_go(cs, b, cur, acc) == layout_go(rest, b, Seq::empty(), acc2));
            } else {
                let acc2 = acc.push(cur).push(Seq::empty());
                lemma_layout_go_chars(rest, b, Seq::empty(), acc2, p);
                assert(layout_go(cs, b, cur, acc) == layout_go(rest, b, Seq::empty(), acc2));
            }
        } else {
            assert(p(c));
            if line_width(cur) + char_width(c) > b {
                let one = Seq::<char>::empty().push(c);
                let acc2 = acc.push(cur);
                lemma_layout_go_chars(rest, b, one, acc2, p);
                assert(layout_go(cs, b, cur, acc) == layout_go(rest, b, one, acc2));
            } else {
                lemma_layout_go_chars(rest, b, cur.push(c), acc, p);
                assert(layout_go(cs, b, cur, acc) == layout_go(rest, b, cur.push(c), acc));
            }
        }
    }
}

/// On a line of narrow characters the width in half-units equals the
/// character count.
proof fn lemma_narrow_width_is_count(s: Seq<char>)
    requires
        forall|i: int| 0 <= i < s.len() ==> char_width(#[trigger] s[i]) == 1,
    ensures
        line_width(s) == s.len(),
    decreases s.len(),
{
    if s.len() > 0 {
        lemma_narrow_width_is_count(s.drop_last());
    }
}

/// On a line of wide characters the width in half-units is twice the
/// character count.
proof fn lemma_wide_width_is_count(s: Seq<char>)
    requires
        forall|i: int| 0 <= i < s.len() ==> char_width(#[trigger] s[i]) == 2,
    ensures
        line_width(s) == 2 * s.len(),
    decreases s.len(),
{
    if s.len() > 0 {
        lemma_wide_width_is_count(s.drop_last());
    }
}

/// Capacity law, narrow half: for text made only of narrow characters, a
/// line holds at most `2 x budget` characters — `budget2` is already the
/// budget in half-units, i.e. `2 x budget`.
pub proof fn lemma_narrow_line_length(cs: Seq<char>, budget2: int)
    requires
        budget2 >= 2,
        forall|i: int| 0 <= i < cs.len() ==> (#[trigger] cs[i]) as u32 <= 256,
    ensures
        forall|i: int|
            0 <= i < layout_spec(cs, budget2).len() ==> (#[trigger] layout_spec(cs, budget2)[i]).len()
                <= budget2,
{
    let p = |c: char| c != '\n' && c as u32 <= 256;
    lemma_layout_go_chars(cs, budget2, Seq::empty(), Seq::empty(), p);
    lemma_lines_within_budget(cs, budget2);
    let out = layout_spec(cs, budget2);
    assert forall|i: int| 0 <= i < out.len() implies (#[trigger] out[i]).len() <= budget2 by {
        assert(forall|j: int| 0 <= j < out[i].len() ==> p(#[trigger] out[i][j]));
        assert(forall|j: int| 0 <= j < out[i].len() ==> char_width(#[trigger] out[i][j]) == 1);
        lemma_narrow_width_is_count(out[i]);
    }
}

/// Capacity law, wide half: for text made only of wide characters, a line
/// holds at most `budget` characters, i.e. twice the count stays within
/// `budget2` half-units.
pub proof fn lemma_wide_line_length(cs: Seq<char>, budget2: int)
    requires
        budget2 >= 2,
        forall|i: int| 0 <= i < cs.len() ==> (#[trigger] cs[i]) as u32 > 256,
    ensures
        forall|i: int|
            0 <= i < layout_spec(cs, budget2).len() ==> 2 * (#[trigger] layout_spec(
                cs,
                budget2,
            )[i]).len() <= budget2,
{
    let p = |c: char| c as u32 > 256;
    lemma_layout_go_chars(cs, budget2, Seq::empty(), Seq::empty(), p);
    lemma_lines_within_budget(cs, budget2);
    let out = layout_spec(cs, budget2);
    assert forall|i: int| 0 <= i < out.len() implies 2 * (#[trigger] out[i]).len() <= budget2 by {
        assert(forall|j: int| 0 <= j < out[i].len() ==> p(#[trigger] out[i][j]));
        assert(forall|j: int| 0 <= j < out[i].len() ==> char_width(#[trigger] out[i][j]) == 2);
        lemma_wide_width_is_count(out[i]);
    }
}

} // verus!
