//! What is done to a source text before it goes to the assembler.
//!
//! The sizes of a register are written one pair of brackets each, as in
//! `i32[2][3]`, or in one pair with commas, as in `i32[2, 3]`. The
//! assembler knows the second form only: it reads a declaration as a name, a
//! colon, a type, and the sizes between the first `[` and the first `]`
//! that follow. So every `][` outside a comment is turned into `, ` first.
//! The assembler cannot take a line on which a `]` still comes before a
//! `[`: such a text is refused here, with the number of the line.

use vstd::prelude::*;
use vstd::std_specs::iter::IteratorSpec;
use crate::machine::engine::push_char;

verus! {

/// The byte that ends a line.
pub const NEWLINE: u8 = 0x0A;

/// The byte that starts a comment, which runs to the end of the line.
pub const SEMICOLON: u8 = 0x3B;

/// The byte `[`.
pub const OPEN: u8 = 0x5B;

/// The byte `]`.
pub const CLOSE: u8 = 0x5D;

/// Whether no line ends between positions `i` and `j`.
pub open spec fn same_line(text: Seq<u8>, i: int, j: int) -> bool {
    forall|k: int| i <= k < j ==> #[trigger] text[k] != NEWLINE
}

/// Whether position `j` lies in a comment: behind a `;` of its line.
pub open spec fn commented(text: Seq<u8>, j: int) -> bool {
    exists|k: int| 0 <= k < j && #[trigger] text[k] == SEMICOLON && same_line(text, k, j)
}

/// Whether a `]` at `i` and a `[` at `j` stand in the wrong order: on one
/// line, the `]` first, and the `[` outside any comment.
pub open spec fn disorder(text: Seq<u8>, i: int, j: int) -> bool {
    &&& 0 <= i < j < text.len()
    &&& text[i] == CLOSE
    &&& text[j] == OPEN
    &&& same_line(text, i, j)
    &&& !commented(text, j)
}

/// Whether the `[` at `j` is out of order with some `]`.
pub open spec fn disordered_at(text: Seq<u8>, j: int) -> bool {
    exists|i: int| #[trigger] disorder(text, i, j)
}

/// Whether on every line, outside comments, each `[` comes before each `]`.
pub open spec fn brackets_in_order(text: Seq<u8>) -> bool {
    forall|j: int| !#[trigger] disordered_at(text, j)
}

/// Number of line ends before position `j`.
pub open spec fn line_ends_before(text: Seq<u8>, j: int) -> nat
    decreases j,
{
    if j <= 0 {
        0
    } else {
        line_ends_before(text, j - 1) + if text[j - 1] == NEWLINE {
            1nat
        } else {
            0nat
        }
    }
}

/// Whether `line` is the first line with brackets out of order: the line,
/// counted from 1, of the first `[` that follows a `]`.
pub open spec fn first_disorder(text: Seq<u8>, line: usize) -> bool {
    exists|j: int|
        {
            &&& #[trigger] disordered_at(text, j)
            &&& forall|e: int| e < j ==> !#[trigger] disordered_at(text, e)
            &&& line == line_ends_before(text, j) + 1
        }
}

/// There are no more line ends before a position than bytes.
pub proof fn lemma_line_ends_bound(text: Seq<u8>, j: int)
    requires
        0 <= j,
    ensures
        line_ends_before(text, j) <= j,
    decreases j,
{
    if j > 0 {
        lemma_line_ends_bound(text, j - 1);
    }
}

/// Looks for brackets out of order: `None` where there are none, else the
/// first line that has them.
pub fn find_disorder(text: &[u8]) -> (found: Option<usize>)
    ensures
        found is None <==> brackets_in_order(text@),
        found matches Some(line) ==> first_disorder(text@, line),
{
    let ghost bytes = text@;
    let mut ends: usize = 0;
    let mut comment = false;
    let mut closed = false;
    let mut p: usize = 0;
    while p < text.len()
        invariant
            0 <= p <= text.len(),
            bytes == text@,
            ends == line_ends_before(bytes, p as int),
            comment == commented(bytes, p as int),
            closed == (exists|i: int|
                0 <= i < p && #[trigger] bytes[i] == CLOSE && same_line(bytes, i, p as int)
                    && !commented(bytes, i)),
            forall|e: int| e < p ==> !#[trigger] disordered_at(bytes, e),
        decreases text.len() - p,
    {
        let byte = text[p];
        let ghost was_closed = closed;
        let ghost was_comment = comment;
        proof {
            lemma_line_ends_bound(bytes, p as int);
        }
        if byte == OPEN && closed && !comment {
            proof {
                let i = choose|i: int|
                    0 <= i < p && #[trigger] bytes[i] == CLOSE && same_line(bytes, i, p as int)
                        && !commented(bytes, i);
                assert(disorder(bytes, i, p as int));
                assert(disordered_at(bytes, p as int));
            }
            return Some(ends + 1);
        }
        proof {
            if disordered_at(bytes, p as int) {
                let i = choose|i: int| #[trigger] disorder(bytes, i, p as int);
                if commented(bytes, i) {
                    let k = choose|k: int|
                        0 <= k < i && #[trigger] bytes[k] == SEMICOLON && same_line(bytes, k, i);
                    assert(same_line(bytes, k, p as int));
                }
                assert(bytes[i] == CLOSE);
            }
        }
        if byte == NEWLINE {
            ends = ends + 1;
            comment = false;
            closed = false;
            proof {
                assert forall|k: int| 0 <= k < p + 1 implies !(#[trigger] bytes[k] == SEMICOLON
                    && same_line(bytes, k, p + 1)) by {
                    if same_line(bytes, k, p + 1) {
                        assert(bytes[p as int] != NEWLINE);
                    }
                }
                assert forall|i: int| 0 <= i < p + 1 implies !(#[trigger] bytes[i] == CLOSE
                    && same_line(bytes, i, p + 1) && !commented(bytes, i)) by {
                    if same_line(bytes, i, p + 1) {
                        assert(bytes[p as int] != NEWLINE);
                    }
                }
            }
        } else {
            if byte == SEMICOLON {
                comment = true;
                proof {
                    assert(bytes[p as int] == SEMICOLON && same_line(bytes, p as int, p + 1));
                }
            } else {
                proof {
                    if was_comment {
                        let k = choose|k: int|
                            0 <= k < p && #[trigger] bytes[k] == SEMICOLON && same_line(
                                bytes,
                                k,
                                p as int,
                            );
                        assert(same_line(bytes, k, p + 1));
                    }
                    if commented(bytes, p + 1) {
                        let k = choose|k: int|
                            0 <= k < p + 1 && #[trigger] bytes[k] == SEMICOLON && same_line(
                                bytes,
                                k,
                                p + 1,
                            );
                        assert(same_line(bytes, k, p as int));
                    }
                }
            }
            if byte == CLOSE && !comment {
                closed = true;
                proof {
                    assert(bytes[p as int] == CLOSE && same_line(bytes, p as int, p + 1)
                        && !commented(bytes, p as int));
                }
            } else {
                proof {
                    if was_closed {
                        let i = choose|i: int|
                            0 <= i < p && #[trigger] bytes[i] == CLOSE && same_line(
                                bytes,
                                i,
                                p as int,
                            ) && !commented(bytes, i);
                        assert(same_line(bytes, i, p + 1));
                    }
                    if exists|i: int|
                        0 <= i < p + 1 && #[trigger] bytes[i] == CLOSE && same_line(bytes, i, p + 1)
                            && !commented(bytes, i) {
                        let i = choose|i: int|
                            0 <= i < p + 1 && #[trigger] bytes[i] == CLOSE && same_line(
                                bytes,
                                i,
                                p + 1,
                            ) && !commented(bytes, i);
                        assert(i < p);
                        assert(same_line(bytes, i, p as int));
                    }
                }
            }
        }
        p = p + 1;
    }
    proof {
        assert forall|j: int| !#[trigger] disordered_at(bytes, j) by {
            if disordered_at(bytes, j) {
                let i = choose|i: int| #[trigger] disorder(bytes, i, j);
                assert(j < p);
            }
        }
    }
    None
}

/// The text with every `][` outside a comment turned into `, `. A comment
/// runs from a `;` to the end of its line; `comment` says whether the text
/// starts within one.
pub open spec fn joined(text: Seq<char>, comment: bool) -> Seq<char>
    decreases text.len(),
{
    if text.len() == 0 {
        text
    } else if !comment && text[0] == ']' && text.len() > 1 && text[1] == '[' {
        seq![',', ' '] + joined(text.skip(2), comment)
    } else {
        seq![text[0]] + joined(text.skip(1), text[0] == ';' || (comment && text[0] != '\n'))
    }
}

/// The text with every `][` outside a comment turned into `, `.
pub fn join_brackets(source: &str) -> (text: String)
    ensures
        text@ == joined(source@, false),
{
    broadcast use vstd::string::group_string_axioms;

    let mut text = String::new();
    let mut chars = source.chars();
    let mut comment = false;
    let mut pending = false;
    let ghost mut rest = source@;
    loop
        invariant
            chars.obeys_prophetic_iter_laws(),
            chars.decrease() is Some,
            chars.remaining() == rest,
            pending ==> !comment,
            joined(source@, false) == text@ + joined(
                if pending {
                    seq![']'] + rest
                } else {
                    rest
                },
                comment,
            ),
        decreases rest.len(),
    {
        let ghost before = rest;
        let ghost held = if pending {
            seq![']'] + before
        } else {
            before
        };
        let ghost so_far = text@;
        match chars.next() {
            None => {
                if pending {
                    push_char(&mut text, ']');
                    proof {
                        assert(held =~= seq![']']);
                        assert(held.skip(1) =~= Seq::<char>::empty());
                        assert(joined(held.skip(1), false) =~= Seq::<char>::empty());
                        assert(joined(held, false) =~= seq![']']);
                    }
                }
                proof {
                    assert(before.len() == 0);
                    assert(text@ =~= so_far + joined(held, comment));
                }
                return text;
            },
            Some(c) => {
                proof {
                    rest = before.drop_first();
                    assert(before[0] == c);
                }
                if pending && c == '[' {
                    push_char(&mut text, ',');
                    push_char(&mut text, ' ');
                    pending = false;
                    proof {
                        assert(held.skip(2) =~= rest);
                        assert(text@ + joined(rest, comment) =~= so_far + joined(held, comment));
                    }
                } else {
                    let ghost mut base = so_far;
                    if pending {
                        push_char(&mut text, ']');
                        pending = false;
                        proof {
                            assert(held.skip(1) =~= before);
                            base = so_far.push(']');
                            assert(so_far + joined(held, false) =~= base + joined(before, false));
                        }
                    }
                    proof {
                        assert(before.skip(1) =~= rest);
                        assert(joined(source@, false) == base + joined(before, comment));
                    }
                    if !comment && c == ']' {
                        pending = true;
                        proof {
                            assert(seq![']'] + rest =~= before);
                        }
                    } else {
                        push_char(&mut text, c);
                        let ghost was = comment;
                        if c == '\n' {
                            comment = false;
                        } else if c == ';' {
                            comment = true;
                        }
                        proof {
                            assert(comment == (c == ';' || (was && c != '\n')));
                            assert(joined(before, was) == seq![c] + joined(rest, comment));
                            assert(text@ + joined(rest, comment) =~= base + joined(before, was));
                        }
                    }
                }
            },
        }
    }
}

} // verus!
