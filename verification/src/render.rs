//! The render surface as data: every state change yields a sequence of
//! drawing actions, and the scroll policy decides when the screen is
//! cleared and the active row returns to the top.

use vstd::prelude::*;

verus! {

/// Visual role of a piece of text; each role is drawn in its own style so
/// hints, typed input, output and errors stay distinguishable.
#[derive(Clone, Copy, PartialEq, Eq, Structural, Debug)]
pub enum Style {
    Prompt,
    Input,
    Hint,
    Output,
    Error,
}

/// One terminal drawing action, to be performed in order; ClearRow blanks
/// one whole row across the terminal's width.
#[derive(Clone, Debug)]
pub enum RenderOp {
    ClearScreen,
    ClearRow { row: usize },
    Present,
    Text { row: usize, col: usize, text: Vec<char>, style: Style },
    Cell { row: usize, col: usize, ch: char, style: Style },
}

/// The mathematical shape of a drawing action.
pub enum OpShape {
    Clear,
    ClearRow { row: int },
    Present,
    Text { row: int, col: int, text: Seq<char>, style: Style },
    Cell { row: int, col: int, ch: char, style: Style },
}

pub open spec fn op_shape(op: RenderOp) -> OpShape {
    match op {
        RenderOp::ClearScreen => OpShape::Clear,
        RenderOp::ClearRow { row } => OpShape::ClearRow { row: row as int },
        RenderOp::Present => OpShape::Present,
        RenderOp::Text { row, col, text, style } => OpShape::Text {
            row: row as int,
            col: col as int,
            text: text@,
            style,
        },
        RenderOp::Cell { row, col, ch, style } => OpShape::Cell {
            row: row as int,
            col: col as int,
            ch,
            style,
        },
    }
}

/// The shapes of a whole action sequence.
pub open spec fn shapes(ops: Seq<RenderOp>) -> Seq<OpShape> {
    ops.map_values(|op: RenderOp| op_shape(op))
}

pub proof fn lemma_shapes_push(ops: Seq<RenderOp>, op: RenderOp)
    ensures
        shapes(ops.push(op)) == shapes(ops).push(op_shape(op)),
{
    assert(shapes(ops.push(op)) =~= shapes(ops).push(op_shape(op)));
}

/// The scroll threshold: the active row stands at or past 98% of the
/// terminal height.
pub open spec fn hits_threshold(row: int, height: int) -> bool {
    100 * row >= 98 * height
}

/// The active row after one guarded print: reset to the top on scroll,
/// untouched otherwise.
pub open spec fn row_after_print(row: int, height: int) -> int {
    if hits_threshold(row, height) {
        0
    } else {
        row
    }
}

/// The actions of one guarded print: when the active row has hit the
/// threshold, the screen is cleared first and the text lands on row 0.
pub open spec fn print_shapes(
    active: int,
    row: int,
    col: int,
    text: Seq<char>,
    style: Style,
    height: int,
) -> Seq<OpShape> {
    if hits_threshold(active, height) {
        seq![
            OpShape::Clear,
            OpShape::Text { row: 0, col, text, style },
            OpShape::Present,
        ]
    } else {
        seq![OpShape::Text { row, col, text, style }, OpShape::Present]
    }
}

/// The fixed prompt, one column per character.
pub open spec fn prompt_chars() -> Seq<char> {
    seq!['n', 'a', 's', 'h', '~', '>', '>', ' ']
}

/// The column where typed text begins, just right of the prompt.
pub const PROMPT_COL: usize = 9;

pub fn prompt_text() -> (t: Vec<char>)
    ensures
        t@ == prompt_chars(),
{
    let mut t: Vec<char> = Vec::new();
    t.push('n');
    t.push('a');
    t.push('s');
    t.push('h');
    t.push('~');
    t.push('>');
    t.push('>');
    t.push(' ');
    proof {
        assert(t@ =~= prompt_chars());
    }
    t
}

/// The actions that clear the active line: on a scroll-threshold hit the
/// whole screen is cleared first and the active row resets to 0; then the
/// row is blanked across its full width, and the prompt and the typed
/// buffer are redrawn from column 0.
pub open spec fn clear_line_shapes(active: int, buf: Seq<char>, height: int) -> Seq<OpShape> {
    let a1 = row_after_print(active, height);
    (if hits_threshold(active, height) {
        seq![OpShape::Clear]
    } else {
        Seq::empty()
    }) + seq![
        OpShape::ClearRow { row: a1 },
        OpShape::Text { row: a1, col: 0, text: prompt_chars(), style: Style::Prompt },
        OpShape::Text { row: a1, col: PROMPT_COL as int, text: buf, style: Style::Input },
        OpShape::Present,
    ]
}

/// The actions that echo one typed character: clear the line, then put the
/// character at the cursor and present.
pub open spec fn put_char_shapes(
    active: int,
    buf: Seq<char>,
    col: int,
    c: char,
    height: int,
) -> Seq<OpShape> {
    clear_line_shapes(active, buf, height) + seq![
        OpShape::Cell { row: row_after_print(active, height), col, ch: c, style: Style::Input },
        OpShape::Present,
    ]
}

/// The actions that draw a message at the cursor: clear the line, then a
/// guarded print of the message there.
pub open spec fn print_at_cursor_shapes(
    active: int,
    buf: Seq<char>,
    col: int,
    text: Seq<char>,
    style: Style,
    height: int,
) -> Seq<OpShape> {
    let a1 = row_after_print(active, height);
    clear_line_shapes(active, buf, height) + print_shapes(a1, a1, col, text, style, height)
}

/// The active row after the actions of `print_at_cursor_shapes`.
pub open spec fn row_after_two(active: int, height: int) -> int {
    row_after_print(row_after_print(active, height), height)
}

/// The active row after `k` guarded prints in a row.
pub open spec fn rows_after_prints(active: int, k: nat, height: int) -> int
    decreases k,
{
    if k == 0 {
        active
    } else {
        row_after_print(rows_after_prints(active, (k - 1) as nat, height), height)
    }
}

/// The actions printing output lines at increasing offsets below the
/// command row, each print guarded by the scroll policy.
pub open spec fn output_shapes(active: int, lines: Seq<Seq<char>>, n: int, height: int) -> Seq<
    OpShape,
>
    decreases lines.len(),
{
    if lines.len() == 0 {
        Seq::empty()
    } else {
        print_shapes(active, active + n, 0, lines.first(), Style::Output, height) + output_shapes(
            row_after_print(active, height),
            lines.drop_first(),
            n + 1,
            height,
        )
    }
}

/// The fixed head of the message shown when a command cannot be run.
pub open spec fn unknown_prefix_chars() -> Seq<char> {
    seq![
        'n', 'a', 's', 'h', ':', ' ', 'U', 'n', 'k', 'n', 'o', 'w', 'n', ' ', 'c', 'o', 'm', 'm',
        'a', 'n', 'd', ':', ' ',
    ]
}

/// The whole message shown when the typed line cannot be run: the fixed
/// head followed by the line itself.
pub open spec fn unknown_msg_chars(buf: Seq<char>) -> Seq<char> {
    unknown_prefix_chars() + buf
}

pub fn unknown_msg_text(buf: &Vec<char>) -> (t: Vec<char>)
    ensures
        t@ == unknown_msg_chars(buf@),
{
    let mut t: Vec<char> = Vec::new();
    t.push('n');
    t.push('a');
    t.push('s');
    t.push('h');
    t.push(':');
    t.push(' ');
    t.push('U');
    t.push('n');
    t.push('k');
    t.push('n');
    t.push('o');
    t.push('w');
    t.push('n');
    t.push(' ');
    t.push('c');
    t.push('o');
    t.push('m');
    t.push('m');
    t.push('a');
    t.push('n');
    t.push('d');
    t.push(':');
    t.push(' ');
    proof {
        assert(t@ =~= unknown_prefix_chars());
    }
    let ghost head = t@;
    let mut i: usize = 0;
    proof {
        assert(t@ =~= head + buf@.subrange(0, 0));
    }
    while i < buf.len()
        invariant
            0 <= i <= buf@.len(),
            t@ == head + buf@.subrange(0, i as int),
            head == unknown_prefix_chars(),
        decreases buf@.len() - i,
    {
        t.push(buf[i]);
        proof {
            assert(head + buf@.subrange(0, i + 1) =~= (head + buf@.subrange(0, i as int)).push(
                buf@[i as int],
            ));
        }
        i += 1;
    }
    proof {
        assert(buf@.subrange(0, buf@.len() as int) =~= buf@);
    }
    t
}

} // verus!
