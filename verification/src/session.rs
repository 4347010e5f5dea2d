//! The session: line buffer, cursor, suggestion selection and the event
//! dispatch that ties them together. Every operation describes its state
//! change and the drawing actions it emits.

use vstd::prelude::*;

use crate::cache::{
    lemma_matches_of_concat, lemma_matches_of_len_le, lemma_matches_of_monotone,
    lemma_matches_of_none, lemma_matches_of_sound, lemma_prefix_of_trans, matches_of,
    SuggestionCache,
};
use crate::render::{
    clear_line_shapes, hits_threshold, lemma_shapes_push, output_shapes, print_at_cursor_shapes,
    print_shapes, prompt_chars, prompt_text, put_char_shapes, row_after_print, row_after_two,
    rows_after_prints, shapes, unknown_msg_chars, unknown_msg_text, OpShape, RenderOp, Style,
    PROMPT_COL,
};
use crate::text::{
    is_prefix, last_token, last_token_of, output_lines, split_lines, suffix_from, tokenize,
    tokens_of,
};

verus! {

broadcast use vstd::std_specs::vec::vec_clone_deep_view_proof;

/// The suggestion selection a buffer calls for: the cached names starting
/// with its last token, or nothing when the buffer holds no token.
pub open spec fn selection_for(cache: Seq<Seq<char>>, buf: Seq<char>) -> Seq<Seq<char>> {
    if last_token(buf).len() == 0 {
        Seq::empty()
    } else {
        matches_of(cache, last_token(buf))
    }
}

/// The suffix the selected match adds beyond the typed token.
pub open spec fn hint_of(sel: Seq<Seq<char>>, idx: int, token: Seq<char>) -> Seq<char> {
    sel[idx].subrange(token.len() as int, sel[idx].len() as int)
}

/// How accepting one character changes the session state.
pub open spec fn accepts_char(pre: Session, post: Session, c: char, h: int) -> bool {
    &&& post.buffer@ == pre.buffer@.push(c)
    &&& post.col == pre.col + 1
    &&& post.row == row_after_accept(pre.row as int, post.cur_sugs@.len() > 0, h)
    &&& post.sug_idx == 0
    &&& pre.cache.contents().is_prefix_of(post.cache.contents())
    &&& post.cur_sugs.deep_view() == selection_for(post.cache.contents(), post.buffer@)
    &&& (selection_for(pre.cache.contents(), pre.buffer@.push(c)).len() > 0 ==> post.cache
        == pre.cache)
    &&& (last_token(pre.buffer@.push(c)).len() == 0 ==> post.cache == pre.cache)
}

/// The active row after one accepted character: the echo may scroll once,
/// and a shown hint may scroll twice more.
pub open spec fn row_after_accept(r0: int, shown: bool, h: int) -> int {
    if shown {
        row_after_two(row_after_print(r0, h), h)
    } else {
        row_after_print(r0, h)
    }
}

/// The actions one accepted character emits: the echo, then the hint for
/// the first match when one exists.
pub open spec fn accept_shapes(pre: Session, post: Session, c: char, h: int) -> Seq<OpShape> {
    put_char_shapes(pre.row as int, post.buffer@, pre.col as int, c, h) + if post.cur_sugs@.len()
        > 0 {
        print_at_cursor_shapes(
            row_after_print(pre.row as int, h),
            post.buffer@,
            pre.col + 1,
            hint_of(post.cur_sugs.deep_view(), 0, last_token(post.buffer@)),
            Style::Hint,
            h,
        )
    } else {
        Seq::empty()
    }
}

/// The next cycling index over a fixed match set of size `n`: one step
/// forward, wrapping to 0 at the end.
pub open spec fn cycle_wraps(idx: int, n: int) -> int {
    if idx + 1 < n {
        idx + 1
    } else {
        0
    }
}

/// The column space leaves room to auto-commit match `m` over token `t`.
pub open spec fn commit_room(pre: Session, m: Seq<char>, t: Seq<char>) -> bool {
    pre.buffer@.len() + (m.len() - t.len()) + PROMPT_COL + 1 <= usize::MAX
}

/// What one cycle does when the channel contributed nothing new: the index
/// advances and wraps over the unchanged match set, and a unique match is
/// committed to the buffer followed by one space.
pub open spec fn cycle_quiet(pre: Session, post: Session) -> bool {
    let t = last_token(pre.buffer@);
    let sel0 = selection_for(pre.cache.contents(), pre.buffer@);
    &&& (sel0.len() == 0 ==> post.sug_idx == 0 && post.buffer == pre.buffer && post.cur_sugs@.len()
        == 0)
    &&& (sel0.len() >= 2 ==> post.sug_idx == cycle_wraps(pre.sug_idx as int, sel0.len() as int)
        && post.buffer == pre.buffer && post.cur_sugs.deep_view() == sel0)
    &&& (sel0.len() == 1 && commit_room(pre, sel0[0], t) ==> post.buffer@ == pre.buffer@
        + sel0[0].subrange(t.len() as int, sel0[0].len() as int) + seq![' '] && post.sug_idx == 0)
    &&& (sel0.len() == 1 && !commit_room(pre, sel0[0], t) ==> post.buffer == pre.buffer
        && post.sug_idx == 0)
}

/// Everything one cycle guarantees: append-only cache growth, a selection
/// that matches the final cache and buffer, a committed unique match (the
/// only way the buffer changes), the hint drawn for the newly selected
/// match, and deterministic index wrapping when no new names arrived.
pub open spec fn cycle_post(pre: Session, post: Session, ops: Seq<RenderOp>, h: int) -> bool {
    let t = last_token(pre.buffer@);
    &&& pre.cache.contents().is_prefix_of(post.cache.contents())
    &&& (t.len() == 0 ==> post == pre && ops.len() == 0)
    &&& (t.len() > 0 ==> post.cur_sugs.deep_view() == selection_for(
        post.cache.contents(),
        post.buffer@,
    ))
    &&& (post.buffer@ != pre.buffer@ ==> post.sug_idx == 0 && (exists|m: Seq<char>|
        is_prefix(t, m) && post.buffer@ == pre.buffer@ + m.subrange(t.len() as int, m.len() as int)
            + seq![' ']))
    &&& ((t.len() > 0 && post.buffer == pre.buffer && post.cur_sugs@.len() >= 2) ==> shapes(ops)
        == print_at_cursor_shapes(
        pre.row as int,
        pre.buffer@,
        pre.col as int,
        hint_of(post.cur_sugs.deep_view(), post.sug_idx as int, t),
        Style::Hint,
        h,
    ) && post.row == row_after_two(pre.row as int, h) && post.sug_idx < post.cur_sugs@.len())
    &&& ((t.len() > 0 && post.buffer == pre.buffer && post.cur_sugs@.len() < 2) ==> ops.len() == 0
        && post.row == pre.row)
    &&& ((t.len() > 0 && post.cache == pre.cache) ==> cycle_quiet(pre, post))
}

/// A command ready to run: the first token as the program name, the rest
/// as its arguments.
pub struct CommandLine {
    pub name: Vec<char>,
    pub args: Vec<Vec<char>>,
}

/// What the submit step leaves behind: the line is cleared, the buffer is
/// parsed, and nothing else moves.
pub open spec fn submit_post(
    pre: Session,
    post: Session,
    ops: Seq<RenderOp>,
    cmd: Option<CommandLine>,
    h: int,
) -> bool {
    &&& post.buffer == pre.buffer
    &&& post.col == pre.col
    &&& post.cache == pre.cache
    &&& post.sug_idx == pre.sug_idx
    &&& post.cur_sugs == pre.cur_sugs
    &&& post.row == row_after_print(pre.row as int, h)
    &&& shapes(ops) == clear_line_shapes(pre.row as int, pre.buffer@, h)
    &&& (tokens_of(pre.buffer@).len() == 0 <==> cmd is None)
    &&& (cmd matches Some(c) ==> c.name@ == tokens_of(pre.buffer@)[0] && c.args.deep_view()
        == tokens_of(pre.buffer@).subrange(1, tokens_of(pre.buffer@).len() as int))
}

/// All session state: terminal cursor, line buffer, suggestion cache and
/// the current selection with its cycling index.
pub struct Session {
    pub row: usize,
    pub col: usize,
    pub buffer: Vec<char>,
    pub cache: SuggestionCache,
    pub sug_idx: usize,
    pub cur_sugs: Vec<Vec<char>>,
}

impl Session {
    /// Well-formedness: the cursor column tracks the buffer behind the
    /// prompt, and the cycling index points into the selection the current
    /// buffer and cache call for (or rests at zero).
    pub open spec fn wf(&self) -> bool {
        &&& self.col == self.buffer@.len() + PROMPT_COL
        &&& (self.sug_idx == 0 || self.sug_idx < selection_for(
            self.cache.contents(),
            self.buffer@,
        ).len())
    }

    /// A fresh session drawing suggestions from `rec`.
    pub fn new(rec: std::sync::mpsc::Receiver<Vec<char>>) -> (s: Session)
        ensures
            s.wf(),
            s.row == 0,
            s.col == PROMPT_COL,
            s.buffer@ == Seq::<char>::empty(),
            s.cache.contents() == Seq::<Seq<char>>::empty(),
            s.sug_idx == 0,
            s.cur_sugs.deep_view() == Seq::<Seq<char>>::empty(),
    {
        let buffer: Vec<char> = Vec::new();
        let cur_sugs: Vec<Vec<char>> = Vec::new();
        let s = Session {
            row: 0,
            col: PROMPT_COL,
            buffer,
            cache: SuggestionCache::new(rec),
            sug_idx: 0,
            cur_sugs,
        };
        proof {
            assert(s.buffer@ =~= Seq::<char>::empty());
            assert(s.cur_sugs.deep_view() =~~= Seq::<Seq<char>>::empty());
            assert(s.cache.contents() =~~= Seq::<Seq<char>>::empty());
        }
        s
    }

    /// The actions that set up the screen: clear it and draw the prompt at
    /// the origin.
    pub fn startup_ops() -> (ops: Vec<RenderOp>)
        ensures
            shapes(ops@) == seq![
                OpShape::Clear,
                OpShape::Text { row: 0, col: 0, text: prompt_chars(), style: Style::Prompt },
                OpShape::Present,
            ],
    {
        let mut ops: Vec<RenderOp> = Vec::new();
        ops.push(RenderOp::ClearScreen);
        ops.push(RenderOp::Text { row: 0, col: 0, text: prompt_text(), style: Style::Prompt });
        ops.push(RenderOp::Present);
        proof {
            assert(shapes(ops@) =~= seq![
                OpShape::Clear,
                OpShape::Text {
                    row: 0,
                    col: 0,
                    text: prompt_chars(),
                    style: Style::Prompt,
                },
                OpShape::Present,
            ]);
        }
        ops
    }

    /// One guarded print: on a scroll-threshold hit, clear the screen and
    /// land the text on row 0; otherwise print at the requested spot.
    fn raw_print(
        &mut self,
        row: usize,
        col: usize,
        text: Vec<char>,
        style: Style,
        height: usize,
        ops: &mut Vec<RenderOp>,
    )
        ensures
            shapes(final(ops)@) == shapes(old(ops)@) + print_shapes(
                old(self).row as int,
                row as int,
                col as int,
                text@,
                style,
                height as int,
            ),
            final(self).row == row_after_print(old(self).row as int, height as int),
            final(self).col == old(self).col,
            final(self).buffer == old(self).buffer,
            final(self).cache == old(self).cache,
            final(self).sug_idx == old(self).sug_idx,
            final(self).cur_sugs == old(self).cur_sugs,
    {
        let ghost text_view = text@;
        if (self.row as u128) * 100 >= (height as u128) * 98 {
            ops.push(RenderOp::ClearScreen);
            ops.push(RenderOp::Text { row: 0, col, text, style });
            ops.push(RenderOp::Present);
            self.row = 0;
            proof {
                assert(hits_threshold(old(self).row as int, height as int));
                assert(shapes(ops@) =~= shapes(old(ops)@) + print_shapes(
                    old(self).row as int,
                    row as int,
                    col as int,
                    text_view,
                    style,
                    height as int,
                ));
            }
        } else {
            ops.push(RenderOp::Text { row, col, text, style });
            ops.push(RenderOp::Present);
            proof {
                assert(!hits_threshold(old(self).row as int, height as int));
                assert(shapes(ops@) =~= shapes(old(ops)@) + print_shapes(
                    old(self).row as int,
                    row as int,
                    col as int,
                    text_view,
                    style,
                    height as int,
                ));
            }
        }
    }

    /// Clear the active line across its full width and redraw the prompt
    /// and the typed buffer from column 0.
    fn clear_line(&mut self, height: usize, ops: &mut Vec<RenderOp>)
        ensures
            shapes(final(ops)@) == shapes(old(ops)@) + clear_line_shapes(
                old(self).row as int,
                old(self).buffer@,
                height as int,
            ),
            final(self).row == row_after_print(old(self).row as int, height as int),
            final(self).col == old(self).col,
            final(self).buffer == old(self).buffer,
            final(self).cache == old(self).cache,
            final(self).sug_idx == old(self).sug_idx,
            final(self).cur_sugs == old(self).cur_sugs,
    {
        if (self.row as u128) * 100 >= (height as u128) * 98 {
            let ghost g0 = ops@;
            ops.push(RenderOp::ClearScreen);
            self.row = 0;
            proof {
                assert(hits_threshold(old(self).row as int, height as int));
                lemma_shapes_push(g0, ops@.last());
            }
        } else {
            proof {
                assert(!hits_threshold(old(self).row as int, height as int));
            }
        }
        let ghost g1 = ops@;
        ops.push(RenderOp::ClearRow { row: self.row });
        proof {
            lemma_shapes_push(g1, ops@.last());
        }
        let ghost g2 = ops@;
        ops.push(
            RenderOp::Text { row: self.row, col: 0, text: prompt_text(), style: Style::Prompt },
        );
        proof {
            lemma_shapes_push(g2, ops@.last());
        }
        let line = self.buffer.clone();
        proof {
            assert(line.deep_view() == self.buffer.deep_view());
            assert forall|i: int| 0 <= i < line@.len() implies line@[i] == self.buffer@[i] by {
                assert(line.deep_view()[i] == self.buffer.deep_view()[i]);
            }
            assert(line@ =~= self.buffer@);
        }
        let ghost g3 = ops@;
        ops.push(
            RenderOp::Text { row: self.row, col: PROMPT_COL, text: line, style: Style::Input },
        );
        proof {
            lemma_shapes_push(g3, ops@.last());
        }
        let ghost g4 = ops@;
        ops.push(RenderOp::Present);
        proof {
            lemma_shapes_push(g4, ops@.last());
            assert(shapes(ops@) =~= shapes(old(ops)@) + clear_line_shapes(
                old(self).row as int,
                old(self).buffer@,
                height as int,
            ));
        }
    }

    /// Echo one typed character at the cursor.
    fn put_char(&mut self, c: char, height: usize, ops: &mut Vec<RenderOp>)
        ensures
            shapes(final(ops)@) == shapes(old(ops)@) + put_char_shapes(
                old(self).row as int,
                old(self).buffer@,
                old(self).col as int,
                c,
                height as int,
            ),
            final(self).row == row_after_print(old(self).row as int, height as int),
            final(self).col == old(self).col,
            final(self).buffer == old(self).buffer,
            final(self).cache == old(self).cache,
            final(self).sug_idx == old(self).sug_idx,
            final(self).cur_sugs == old(self).cur_sugs,
    {
        self.clear_line(height, ops);
        let ghost g1 = ops@;
        ops.push(RenderOp::Cell { row: self.row, col: self.col, ch: c, style: Style::Input });
        proof {
            lemma_shapes_push(g1, ops@.last());
        }
        let ghost g2 = ops@;
        ops.push(RenderOp::Present);
        proof {
            lemma_shapes_push(g2, ops@.last());
            assert(shapes(ops@) =~= shapes(old(ops)@) + put_char_shapes(
                old(self).row as int,
                old(self).buffer@,
                old(self).col as int,
                c,
                height as int,
            ));
        }
    }

    /// Draw a message at the cursor after clearing the line.
    fn print_at_cursor(&mut self, text: Vec<char>, style: Style, height: usize, ops: &mut Vec<
        RenderOp,
    >)
        ensures
            shapes(final(ops)@) == shapes(old(ops)@) + print_at_cursor_shapes(
                old(self).row as int,
                old(self).buffer@,
                old(self).col as int,
                text@,
                style,
                height as int,
            ),
            final(self).row == row_after_two(old(self).row as int, height as int),
            final(self).col == old(self).col,
            final(self).buffer == old(self).buffer,
            final(self).cache == old(self).cache,
            final(self).sug_idx == old(self).sug_idx,
            final(self).cur_sugs == old(self).cur_sugs,
    {
        let ghost text_view = text@;
        self.clear_line(height, ops);
        let r = self.row;
        let c = self.col;
        self.raw_print(r, c, text, style, height, ops);
        proof {
            assert(shapes(ops@) =~= shapes(old(ops)@) + print_at_cursor_shapes(
                old(self).row as int,
                old(self).buffer@,
                old(self).col as int,
                text_view,
                style,
                height as int,
            ));
        }
    }

    /// Recompute the selection for the current buffer: search the cache,
    /// and when nothing matches, block once for more names before searching
    /// again; with no token the lookup is a no-op with an empty result.
    fn refresh_suggestions(&mut self)
        ensures
            final(self).row == old(self).row,
            final(self).col == old(self).col,
            final(self).buffer == old(self).buffer,
            final(self).sug_idx == old(self).sug_idx,
            old(self).cache.contents().is_prefix_of(final(self).cache.contents()),
            final(self).cur_sugs.deep_view() == selection_for(
                final(self).cache.contents(),
                final(self).buffer@,
            ),
            selection_for(old(self).cache.contents(), old(self).buffer@).len() > 0 ==> final(self).cache == old(self).cache,
            last_token(old(self).buffer@).len() == 0 ==> final(self).cache == old(self).cache,
    {
        let token = last_token_of(&self.buffer);
        if token.len() == 0 {
            self.cur_sugs = Vec::new();
            proof {
                assert(self.cur_sugs.deep_view() =~~= Seq::<Seq<char>>::empty());
            }
            return ;
        }
        let found = self.cache.search(&token);
        if found.len() > 0 {
            self.cur_sugs = found;
            return ;
        }
        let ghost mid = self.cache.contents();
        proof {
            assert(matches_of(mid, token@).len() == 0);
        }
        if self.cache.pull_more(&token) {
            self.cur_sugs = self.cache.search(&token);
        } else {
            self.cur_sugs = found;
            proof {
                let ghost grown = self.cache.contents();
                assert(grown =~~= mid + grown.subrange(mid.len() as int, grown.len() as int));
                lemma_matches_of_concat(
                    mid,
                    grown.subrange(mid.len() as int, grown.len() as int),
                    token@,
                );
                lemma_matches_of_none(
                    grown.subrange(mid.len() as int, grown.len() as int),
                    token@,
                );
                assert(matches_of(grown, token@) =~~= matches_of(mid, token@));
            }
        }
    }

    /// Accept one typed character: append it to the buffer, echo it, move
    /// the cursor, recompute the selection for the new last token, and show
    /// the first match's remaining suffix as an inline hint.
    pub fn accept_char(&mut self, c: char, height: usize) -> (ops: Vec<RenderOp>)
        requires
            old(self).wf(),
            old(self).buffer@.len() + PROMPT_COL < usize::MAX,
        ensures
            final(self).wf(),
            accepts_char(*old(self), *final(self), c, height as int),
            shapes(ops@) == accept_shapes(*old(self), *final(self), c, height as int),
    {
        let mut ops: Vec<RenderOp> = Vec::new();
        self.buffer.push(c);
        self.put_char(c, height, &mut ops);
        self.col = self.col + 1;
        self.refresh_suggestions();
        self.sug_idx = 0;
        if self.cur_sugs.len() == 0 {
            proof {
                assert(shapes(ops@) =~= accept_shapes(
                    *old(self),
                    *self,
                    c,
                    height as int,
                ));
            }
            return ops;
        }
        let token = last_token_of(&self.buffer);
        proof {
            assert(self.cur_sugs.deep_view().len() > 0);
            assert(token@ == last_token(self.buffer@));
            assert(token@.len() > 0);
            lemma_matches_of_sound(self.cache.contents(), token@);
            assert(self.cur_sugs.deep_view()[0] == self.cur_sugs@[0].deep_view());
            assert(self.cur_sugs@[0].deep_view() =~= self.cur_sugs@[0]@);
            assert(is_prefix(token@, self.cur_sugs@[0]@));
        }
        let hint = suffix_from(&self.cur_sugs[0], token.len());
        self.print_at_cursor(hint, Style::Hint, height, &mut ops);
        proof {
            assert(shapes(ops@) =~= accept_shapes(*old(self), *self, c, height as int));
        }
        ops
    }

    /// Advance the suggestion cycle: refresh the selection, step the index,
    /// pull more names when the index runs off the end, wrap it when the
    /// channel yields nothing, and either auto-commit a unique match or show
    /// the hint of the newly selected one.
    #[verifier::rlimit(100)]
    pub fn cycle_suggestion(&mut self, height: usize) -> (ops: Vec<RenderOp>)
        requires
            old(self).wf(),
        ensures
            final(self).wf(),
            cycle_post(*old(self), *final(self), ops@, height as int),
    {
        let mut ops: Vec<RenderOp> = Vec::new();
        let token = last_token_of(&self.buffer);
        if token.len() == 0 {
            return ops;
        }
        let ghost t = token@;
        let ghost c0 = self.cache.contents();
        self.refresh_suggestions();
        let ghost c1 = self.cache.contents();
        let ghost sel1 = self.cur_sugs.deep_view();
        let cache_len = self.cache.items.len();
        proof {
            lemma_matches_of_len_le(c0, t);
            assert(c1.len() == cache_len as int);
            assert(self.sug_idx < usize::MAX);
        }
        self.sug_idx = self.sug_idx + 1;
        if self.sug_idx >= self.cur_sugs.len() {
            if self.cache.pull_more(&token) {
                let ghost c2 = self.cache.contents();
                proof {
                    let app = c2.subrange(c1.len() as int, c2.len() as int);
                    assert(c2 =~~= c1 + app);
                    lemma_matches_of_concat(c1, app, t);
                    assert(app.drop_last() =~~= c2.subrange(c1.len() as int, c2.len() - 1));
                    assert(forall|i: int|
                        0 <= i < app.drop_last().len() ==> !is_prefix(
                            t,
                            #[trigger] app.drop_last()[i],
                        )) by {
                        assert(forall|i: int|
                            0 <= i < app.drop_last().len() ==> app.drop_last()[i] == c2[c1.len()
                                + i]);
                    }
                    lemma_matches_of_none(app.drop_last(), t);
                    assert(app =~~= app.drop_last().push(app.last()));
                    assert(app.last() == c2.last());
                    assert(matches_of(app, t) =~~= Seq::<Seq<char>>::empty().push(c2.last()));
                    assert(matches_of(c2, t) =~~= matches_of(c1, t).push(c2.last()));
                    lemma_matches_of_monotone(c0, c1, t);
                }
                let found = self.cache.search(&token);
                self.cur_sugs = found;
                proof {
                    assert(self.cur_sugs.deep_view().len() == sel1.len() + 1);
                    assert(self.sug_idx < self.cur_sugs@.len() || self.cur_sugs@.len() <= 1);
                }
            } else {
                self.sug_idx = 0;
                proof {
                    let c2 = self.cache.contents();
                    let app = c2.subrange(c1.len() as int, c2.len() as int);
                    assert(c2 =~~= c1 + app);
                    lemma_matches_of_concat(c1, app, t);
                    lemma_matches_of_none(app, t);
                    assert(matches_of(c2, t) =~~= matches_of(c1, t));
                    assert(self.sug_idx < self.cur_sugs@.len() || self.cur_sugs@.len() <= 1);
                }
            }
        }
        proof {
            assert(self.cur_sugs.deep_view() == selection_for(
                self.cache.contents(),
                self.buffer@,
            ));
        }
        if self.cur_sugs.len() == 0 {
            return ops;
        }
        if self.cur_sugs.len() == 1 {
            proof {
                lemma_matches_of_sound(self.cache.contents(), t);
                assert(self.cur_sugs.deep_view()[0] == self.cur_sugs@[0]@);
                assert(is_prefix(t, self.cur_sugs@[0]@));
            }
            let suffix = suffix_from(&self.cur_sugs[0], token.len());
            let ghost m = self.cur_sugs@[0]@;
            let ghost buf_start = self.buffer@;
            let ghost cache_mid = self.cache.contents();
            self.sug_idx = 0;
            if self.col < usize::MAX && suffix.len() <= usize::MAX - 1 - self.col {
                let mut k: usize = 0;
                proof {
                    assert(self.buffer@ =~= buf_start + suffix@.subrange(0, 0));
                }
                while k < suffix.len()
                    invariant
                        self.wf(),
                        k <= suffix@.len(),
                        token@ == t,
                        suffix@ == m.subrange(t.len() as int, m.len() as int),
                        buf_start.len() + suffix@.len() + PROMPT_COL + 1 <= usize::MAX,
                        self.buffer@ == buf_start + suffix@.subrange(0, k as int),
                        cache_mid.is_prefix_of(self.cache.contents()),
                        self.cur_sugs.deep_view() == selection_for(
                            self.cache.contents(),
                            self.buffer@,
                        ),
                    decreases suffix@.len() - k,
                {
                    let ghost cpre = self.cache.contents();
                    let mut more = self.accept_char(suffix[k], height);
                    ops.append(&mut more);
                    proof {
                        assert(self.buffer@ =~= buf_start + suffix@.subrange(0, k + 1));
                        lemma_prefix_of_trans(cache_mid, cpre, self.cache.contents());
                    }
                    k += 1;
                }
                let ghost cpre = self.cache.contents();
                let mut more = self.accept_char(' ', height);
                ops.append(&mut more);
                proof {
                    lemma_prefix_of_trans(cache_mid, cpre, self.cache.contents());
                    lemma_prefix_of_trans(c0, c1, cache_mid);
                    lemma_prefix_of_trans(c0, cache_mid, self.cache.contents());
                    assert(suffix@.subrange(0, suffix@.len() as int) =~= suffix@);
                    assert(self.buffer@ =~= buf_start + suffix@ + seq![' ']);
                    assert(self.buffer@.len() > buf_start.len());
                }
            }
        } else {
            proof {
                lemma_matches_of_sound(self.cache.contents(), t);
                assert(self.sug_idx < self.cur_sugs@.len());
                assert(self.cur_sugs.deep_view()[self.sug_idx as int]
                    == self.cur_sugs@[self.sug_idx as int]@);
                assert(is_prefix(t, self.cur_sugs@[self.sug_idx as int]@));
            }
            let hint = suffix_from(&self.cur_sugs[self.sug_idx], token.len());
            self.print_at_cursor(hint, Style::Hint, height, &mut ops);
            proof {
                assert(shapes(ops@) =~= print_at_cursor_shapes(
                    old(self).row as int,
                    old(self).buffer@,
                    old(self).col as int,
                    hint_of(self.cur_sugs.deep_view(), self.sug_idx as int, t),
                    Style::Hint,
                    height as int,
                ));
            }
        }
        ops
    }

    /// Start a submission: clear the line and parse the buffer into a
    /// command name and arguments; a buffer of only whitespace yields none.
    pub fn begin_submit(&mut self, height: usize) -> (r: (Vec<RenderOp>, Option<CommandLine>))
        requires
            old(self).wf(),
        ensures
            final(self).wf(),
            submit_post(*old(self), *final(self), r.0@, r.1, height as int),
    {
        let mut ops: Vec<RenderOp> = Vec::new();
        self.clear_line(height, &mut ops);
        proof {
            assert(shapes(ops@) =~= clear_line_shapes(
                old(self).row as int,
                old(self).buffer@,
                height as int,
            ));
        }
        let mut toks = tokenize(&self.buffer);
        if toks.len() == 0 {
            (ops, None)
        } else {
            let ghost all = toks.deep_view();
            let name = toks.remove(0);
            proof {
                assert(name@ == all[0]);
                assert(toks.deep_view() =~~= all.subrange(1, all.len() as int));
            }
            (ops, Some(CommandLine { name, args: toks }))
        }
    }

    /// Finish a submission: print each output line on its own row below the
    /// command, advance the active row by the number of lines (a trailing
    /// newline terminates the last line rather than adding an empty one),
    /// and reset the buffer, cursor and selection to a fresh prompt.
    pub fn finish_submit(&mut self, output: Vec<char>, height: usize) -> (ops: Vec<RenderOp>)
        requires
            old(self).wf(),
            old(self).row + output_lines(output@).len() <= usize::MAX,
        ensures
            final(self).wf(),
            final(self).buffer@ == Seq::<char>::empty(),
            final(self).col == PROMPT_COL,
            final(self).sug_idx == 0,
            final(self).cur_sugs.deep_view() == Seq::<Seq<char>>::empty(),
            final(self).cache == old(self).cache,
            final(self).row == row_after_print(
                rows_after_prints(old(self).row as int, output_lines(output@).len(), height as int)
                    + output_lines(output@).len(),
                height as int,
            ),
            shapes(ops@) == output_shapes(
                old(self).row as int,
                output_lines(output@),
                1,
                height as int,
            ) + clear_line_shapes(
                rows_after_prints(old(self).row as int, output_lines(output@).len(), height as int)
                    + output_lines(output@).len(),
                Seq::<char>::empty(),
                height as int,
            ) + seq![OpShape::Present],
    {
        let mut lines = split_lines(&output);
        if output.len() > 0 && output[output.len() - 1] == '\n' {
            let ghost whole = lines.deep_view();
            let _ = lines.pop();
            proof {
                assert(lines.deep_view() =~~= whole.drop_last());
                assert(lines.deep_view() =~~= output_lines(output@));
            }
        } else {
            proof {
                assert(lines.deep_view() =~~= output_lines(output@));
            }
        }
        let k = lines.len();
        let ghost ldeep = lines.deep_view();
        let ghost r0 = self.row as int;
        let mut ops: Vec<RenderOp> = Vec::new();
        let mut n: usize = 0;
        proof {
            assert(ldeep.subrange(0, k as int) =~~= ldeep);
            assert(shapes(ops@) + output_shapes(r0, ldeep, 1, height as int) =~= output_shapes(
                r0,
                ldeep,
                1,
                height as int,
            ));
        }
        while n < k
            invariant
                0 <= n <= k,
                k == ldeep.len(),
                k == lines@.len(),
                lines.deep_view() == ldeep,
                self.buffer == old(self).buffer,
                self.col == old(self).col,
                self.cache == old(self).cache,
                self.sug_idx == old(self).sug_idx,
                self.cur_sugs == old(self).cur_sugs,
                r0 == old(self).row as int,
                old(self).row + k <= usize::MAX,
                self.row as int == rows_after_prints(r0, n as nat, height as int),
                0 <= self.row <= old(self).row,
                shapes(ops@) + output_shapes(
                    self.row as int,
                    ldeep.subrange(n as int, k as int),
                    n + 1,
                    height as int,
                ) == output_shapes(r0, ldeep, 1, height as int),
            decreases k - n,
        {
            let ghost pre_row = self.row as int;
            let row_target = self.row + (n + 1);
            let line = lines[n].clone();
            proof {
                assert(line@ =~= ldeep[n as int]);
                assert(ldeep.subrange(n as int, k as int).first() == ldeep[n as int]);
                assert(ldeep.subrange(n as int, k as int).drop_first() =~~= ldeep.subrange(
                    n + 1,
                    k as int,
                ));
            }
            self.raw_print(row_target, 0, line, Style::Output, height, &mut ops);
            proof {
                assert(shapes(ops@) + output_shapes(
                    self.row as int,
                    ldeep.subrange(n + 1, k as int),
                    n + 2,
                    height as int,
                ) =~= output_shapes(r0, ldeep, 1, height as int));
            }
            n += 1;
        }
        proof {
            assert(ldeep.subrange(k as int, k as int) =~~= Seq::<Seq<char>>::empty());
            assert(shapes(ops@) =~= output_shapes(r0, ldeep, 1, height as int));
        }
        self.buffer = Vec::new();
        self.col = PROMPT_COL;
        self.sug_idx = 0;
        self.cur_sugs = Vec::new();
        let adv = self.row + k;
        self.row = adv;
        self.clear_line(height, &mut ops);
        ops.push(RenderOp::Present);
        proof {
            assert(self.buffer@ =~= Seq::<char>::empty());
            assert(self.cur_sugs.deep_view() =~~= Seq::<Seq<char>>::empty());
            assert(shapes(ops@) =~= output_shapes(r0, ldeep, 1, height as int)
                + clear_line_shapes(
                rows_after_prints(r0, ldeep.len(), height as int) + ldeep.len(),
                Seq::<char>::empty(),
                height as int,
            ) + seq![OpShape::Present]);
        }
        ops
    }

    /// Report a command that could not be run: print the message on the next
    /// row, advance two rows, and reset the buffer, cursor and selection.
    pub fn fail_submit(&mut self, height: usize) -> (ops: Vec<RenderOp>)
        requires
            old(self).wf(),
            old(self).row + 2 <= usize::MAX,
        ensures
            final(self).wf(),
            final(self).buffer@ == Seq::<char>::empty(),
            final(self).col == PROMPT_COL,
            final(self).sug_idx == 0,
            final(self).cur_sugs.deep_view() == Seq::<Seq<char>>::empty(),
            final(self).cache == old(self).cache,
            final(self).row == row_after_print(
                row_after_print(old(self).row as int, height as int) + 2,
                height as int,
            ),
            shapes(ops@) == print_shapes(
                old(self).row as int,
                old(self).row + 1,
                0,
                unknown_msg_chars(old(self).buffer@),
                Style::Error,
                height as int,
            ) + clear_line_shapes(
                row_after_print(old(self).row as int, height as int) + 2,
                Seq::<char>::empty(),
                height as int,
            ) + seq![OpShape::Present],
    {
        let mut ops: Vec<RenderOp> = Vec::new();
        let msg = unknown_msg_text(&self.buffer);
        let target = self.row + 1;
        self.raw_print(target, 0, msg, Style::Error, height, &mut ops);
        self.buffer = Vec::new();
        self.col = PROMPT_COL;
        self.sug_idx = 0;
        self.cur_sugs = Vec::new();
        let adv = self.row + 2;
        self.row = adv;
        self.clear_line(height, &mut ops);
        ops.push(RenderOp::Present);
        proof {
            assert(self.buffer@ =~= Seq::<char>::empty());
            assert(self.cur_sugs.deep_view() =~~= Seq::<Seq<char>>::empty());
            assert(shapes(ops@) =~= print_shapes(
                old(self).row as int,
                old(self).row + 1,
                0,
                unknown_msg_chars(old(self).buffer@),
                Style::Error,
                height as int,
            ) + clear_line_shapes(
                row_after_print(old(self).row as int, height as int) + 2,
                Seq::<char>::empty(),
                height as int,
            ) + seq![OpShape::Present]);
        }
        ops
    }

    /// Opportunistically move at most one pending name into the cache, as
    /// the event loop does once per tick.
    pub fn ingest_available(&mut self)
        requires
            old(self).wf(),
        ensures
            final(self).wf(),
            old(self).cache.contents().is_prefix_of(final(self).cache.contents()),
            final(self).cache.contents().len() <= old(self).cache.contents().len() + 1,
            final(self).row == old(self).row,
            final(self).col == old(self).col,
            final(self).buffer == old(self).buffer,
            final(self).sug_idx == old(self).sug_idx,
            final(self).cur_sugs == old(self).cur_sugs,
    {
        self.cache.ingest_one();
        proof {
            if self.sug_idx != 0 {
                lemma_matches_of_monotone(
                    old(self).cache.contents(),
                    self.cache.contents(),
                    last_token(self.buffer@),
                );
            }
        }
    }
}

/// One keyboard event as the session sees it.
#[derive(Clone, Copy, Debug)]
pub enum KeyEvent {
    Printable(char),
    Enter,
    Tab,
    Escape,
    Other,
}

/// What the caller must do after an event was handled: stop, perform the
/// drawing actions, or run the parsed command and report back through
/// `finish_submit` or `fail_submit`.
pub enum Action {
    Quit,
    Drawn(Vec<RenderOp>),
    Submit { ops: Vec<RenderOp>, command: Option<CommandLine> },
}

impl Session {
    /// Dispatch one event: escape or the quit character ends the session,
    /// printable characters edit the buffer, tab cycles suggestions, and
    /// enter starts a submission.
    pub fn handle_event(&mut self, ev: KeyEvent, height: usize) -> (act: Action)
        requires
            old(self).wf(),
            old(self).buffer@.len() + PROMPT_COL < usize::MAX,
        ensures
            final(self).wf(),
            match ev {
                KeyEvent::Escape => act is Quit && *final(self) == *old(self),
                KeyEvent::Printable(c) => if c == 'q' {
                    act is Quit && *final(self) == *old(self)
                } else {
                    act matches Action::Drawn(dops) && accepts_char(
                        *old(self),
                        *final(self),
                        c,
                        height as int,
                    ) && shapes(dops@) == accept_shapes(
                        *old(self),
                        *final(self),
                        c,
                        height as int,
                    )
                },
                KeyEvent::Tab => act matches Action::Drawn(dops) && cycle_post(
                    *old(self),
                    *final(self),
                    dops@,
                    height as int,
                ),
                KeyEvent::Enter => act matches Action::Submit { ops: dops, command } && submit_post(
                    *old(self),
                    *final(self),
                    dops@,
                    command,
                    height as int,
                ),
                KeyEvent::Other => act matches Action::Drawn(dops) && dops@.len() == 0 && *final(self) == *old(self),
            },
    {
        match ev {
            KeyEvent::Escape => Action::Quit,
            KeyEvent::Printable(c) => {
                if c == 'q' {
                    Action::Quit
                } else {
                    Action::Drawn(self.accept_char(c, height))
                }
            },
            KeyEvent::Tab => Action::Drawn(self.cycle_suggestion(height)),
            KeyEvent::Enter => {
                let (ops, command) = self.begin_submit(height);
                Action::Submit { ops, command }
            },
            KeyEvent::Other => Action::Drawn(Vec::new()),
        }
    }
}

/// The text a finished command leaves for the screen: its standard output,
/// or its standard error when the output is empty.
pub fn select_output(out: Vec<char>, err: Vec<char>) -> (r: Vec<char>)
    ensures
        r@ == if out@.len() > 0 {
            out@
        } else {
            err@
        },
{
    if out.len() > 0 {
        out
    } else {
        err
    }
}

} // verus!
