//! The round-trip law: parsing the canonical serialization of a valid
//! entity yields exactly that entity back.
//!
//! The proofs walk the parser's transition function over the rendered
//! text, one construct at a time: a lemma per kind of line (scalar
//! field, array field, color field, comment placeholder), composed along
//! [`lemma_run_append`].
use vstd::prelude::*;
use crate::parser::{
    lemma_run_append, spec_bare, spec_close, spec_commit, spec_comment_start, spec_group_value,
    spec_init, spec_run, spec_skippable, spec_step, spec_word_step, spec_wrap_header, ElemV,
    FrameV, ModeV, StateV,
};
use crate::value::{FieldV, ValueV};

verus! {

/// A text that can stand as one bare token.
pub open spec fn spec_wf_word(w: Seq<char>) -> bool {
    w.len() > 0 && forall|i: int| 0 <= i < w.len() ==> spec_bare(w[i])
}

/// A list of texts that can all stand as bare tokens.
pub open spec fn spec_wf_words(ws: Seq<Seq<char>>) -> bool {
    forall|i: int| 0 <= i < ws.len() ==> spec_wf_word(#[trigger] ws[i])
}

/// Running one character is stepping once.
proof fn lemma_run1(st: StateV, a: char)
    ensures
        spec_run(st, seq![a]) == spec_step(st, a),
{
    assert(seq![a].drop_first() =~= Seq::<char>::empty());
    assert(spec_run(spec_step(st, a), Seq::<char>::empty()) == spec_step(st, a));
}

/// The committed form of a scanning state: where the stack stands once a
/// pending token is attached. `None` when the state cannot take a value
/// here.
pub open spec fn spec_resolve(st: StateV) -> Option<Seq<FrameV>> {
    match st {
        StateV::Run { stack, mode, comment } => if comment {
            None
        } else {
            match mode {
                ModeV::Idle => Some(stack),
                ModeV::Pending(w) => spec_commit(stack, ValueV::Scalar(w)),
                _ => None,
            }
        },
        StateV::Failed => None,
    }
}

/// Is this a state between tokens, with nothing mid-quote or mid-word?
pub open spec fn spec_between(st: StateV) -> bool {
    st is Run && !st->Run_comment && (st->Run_mode is Idle || st->Run_mode is Pending)
        && spec_resolve(st) is Some
}

/// Extending a bare word with more bare characters.
proof fn lemma_word_extend(stack: Seq<FrameV>, p: Seq<char>, w: Seq<char>)
    requires
        forall|i: int| 0 <= i < w.len() ==> spec_bare(w[i]),
    ensures
        spec_run(StateV::Run { stack, mode: ModeV::Word(p), comment: false }, w) == (StateV::Run {
            stack,
            mode: ModeV::Word(p + w),
            comment: false,
        }),
    decreases w.len(),
{
    if w.len() == 0 {
        assert(p + w =~= p);
    } else {
        let st = StateV::Run { stack, mode: ModeV::Word(p), comment: false };
        assert(spec_step(st, w[0]) == StateV::Run {
            stack,
            mode: ModeV::Word(p.push(w[0])),
            comment: false,
        });
        lemma_word_extend(stack, p.push(w[0]), w.drop_first());
        assert(p.push(w[0]) + w.drop_first() =~= p + w);
    }
}

/// Reading one whole bare word from between-token position: the pending
/// token, if any, commits, and the word accumulates.
proof fn lemma_word_from(st: StateV, w: Seq<char>)
    requires
        spec_between(st),
        spec_wf_word(w),
    ensures
        spec_run(st, w) == (StateV::Run {
            stack: spec_resolve(st)->0,
            mode: ModeV::Word(w),
            comment: false,
        }),
{
    let stack0 = spec_resolve(st)->0;
    let c = w[0];
    assert(spec_bare(c));
    match st->Run_mode {
        ModeV::Idle => {
            assert(spec_step(st, c) == StateV::Run {
                stack: stack0,
                mode: ModeV::Word(seq![c]),
                comment: false,
            });
        },
        ModeV::Pending(p) => {
            assert(spec_step(st, c) == spec_word_step(st->Run_stack, p, c));
            assert(spec_step(st, c) == StateV::Run {
                stack: stack0,
                mode: ModeV::Word(seq![c]),
                comment: false,
            });
        },
        _ => {
            assert(false);
        },
    }
    assert(spec_run(st, w) == spec_run(spec_step(st, c), w.drop_first()));
    lemma_word_extend(stack0, seq![c], w.drop_first());
    assert(seq![c] + w.drop_first() =~= w);
}

/// A comment runs to the end of its line and leaves the state exactly as
/// it was.
proof fn lemma_comment_line(st: StateV, body: Seq<char>)
    requires
        st is Run,
        !st->Run_comment,
        st->Run_mode is Idle || st->Run_mode is Pending,
        forall|i: int| 0 <= i < body.len() ==> body[i] != '\n',
    ensures
        spec_run(st, seq!['#'] + body + seq!['\n']) == st,
{
    let stack = st->Run_stack;
    let mode = st->Run_mode;
    let stc = StateV::Run { stack, mode, comment: true };
    assert(spec_comment_start('#'));
    assert(spec_step(st, '#') == stc) by {
        match mode {
            ModeV::Idle => {},
            ModeV::Pending(w) => {
                assert(spec_word_step(stack, w, '#') == stc);
            },
            _ => {
                assert(false);
            },
        }
    }
    lemma_comment_skip(stack, mode, body);
    assert(spec_step(stc, '\n') == st);
    let t = seq!['#'] + body + seq!['\n'];
    assert(t[0] == '#');
    assert(t.drop_first() =~= body + seq!['\n']);
    lemma_run_append(stc, body, seq!['\n']);
    lemma_run1(StateV::Run { stack, mode, comment: true }, '\n');
}

/// Characters other than a newline are transparent inside a comment.
proof fn lemma_comment_skip(stack: Seq<FrameV>, mode: ModeV, body: Seq<char>)
    requires
        forall|i: int| 0 <= i < body.len() ==> body[i] != '\n',
    ensures
        spec_run(StateV::Run { stack, mode, comment: true }, body) == (StateV::Run {
            stack,
            mode,
            comment: true,
        }),
    decreases body.len(),
{
    if body.len() > 0 {
        lemma_comment_skip(stack, mode, body.drop_first());
    }
}

/// Running three characters is stepping three times.
proof fn lemma_run3(st: StateV, a: char, b: char, c: char)
    ensures
        spec_run(st, seq![a, b, c]) == spec_step(spec_step(spec_step(st, a), b), c),
{
    assert(seq![a, b, c] =~= seq![a] + (seq![b] + seq![c]));
    lemma_run_append(st, seq![a], seq![b] + seq![c]);
    lemma_run1(st, a);
    lemma_run_append(spec_step(st, a), seq![b], seq![c]);
    lemma_run1(spec_step(st, a), b);
    lemma_run1(spec_step(spec_step(st, a), b), c);
}

/// Running four characters is stepping four times.
proof fn lemma_run4(st: StateV, a: char, b: char, c: char, d: char)
    ensures
        spec_run(st, seq![a, b, c, d]) == spec_step(
            spec_step(spec_step(spec_step(st, a), b), c),
            d,
        ),
{
    assert(seq![a, b, c, d] =~= seq![a] + seq![b, c, d]);
    lemma_run_append(st, seq![a], seq![b, c, d]);
    lemma_run1(st, a);
    lemma_run3(spec_step(st, a), b, c, d);
}

/// The stack with `key` pending on its top frame.
pub open spec fn spec_with_key(stack: Seq<FrameV>, key: Seq<char>) -> Seq<FrameV> {
    let top = stack.last();
    stack.update(
        stack.len() - 1,
        FrameV { header: top.header, key: Some(key), elems: top.elems },
    )
}

/// The stack with one more field on its top frame.
pub open spec fn spec_with_field(stack: Seq<FrameV>, key: Seq<char>, v: ValueV) -> Seq<FrameV> {
    let top = stack.last();
    stack.update(
        stack.len() - 1,
        FrameV { header: top.header, key: None, elems: top.elems.push(ElemV::Field(key, v)) },
    )
}

/// The stack with more lone scalars on its top frame.
pub open spec fn spec_with_lones(stack: Seq<FrameV>, vs: Seq<Seq<char>>) -> Seq<FrameV> {
    let top = stack.last();
    stack.update(
        stack.len() - 1,
        FrameV {
            header: top.header,
            key: top.key,
            elems: top.elems + vs.map_values(|w: Seq<char>| ElemV::Lone(ValueV::Scalar(w))),
        },
    )
}

/// One `key = value` line with a scalar value: the key is pended onto
/// the top frame and the value stays pending for the next token.
proof fn lemma_scalar_field_line(st: StateV, key: Seq<char>, val: Seq<char>)
    requires
        spec_between(st),
        spec_resolve(st)->0.len() >= 1,
        spec_resolve(st)->0.last().key is None,
        spec_wf_word(key),
        spec_wf_word(val),
    ensures
        spec_run(st, key + " = "@ + val + "\n"@) == (StateV::Run {
            stack: spec_with_key(spec_resolve(st)->0, key),
            mode: ModeV::Pending(val),
            comment: false,
        }),
{
    reveal_strlit(" = ");
    reveal_strlit("\n");
    let s0 = spec_resolve(st)->0;
    let text = key + " = "@ + val + "\n"@;
    assert(text =~= key + (" = "@ + (val + "\n"@)));
    lemma_run_append(st, key, " = "@ + (val + "\n"@));
    lemma_word_from(st, key);
    let st1 = StateV::Run { stack: s0, mode: ModeV::Word(key), comment: false };
    assert(" = "@ + (val + "\n"@) =~= seq![' ', '=', ' '] + (val + "\n"@));
    lemma_run_append(st1, seq![' ', '=', ' '], val + "\n"@);
    lemma_run3(st1, ' ', '=', ' ');
    let s1 = spec_with_key(s0, key);
    let st2 = StateV::Run { stack: s1, mode: ModeV::Idle, comment: false };
    assert(spec_step(st1, ' ') == StateV::Run {
        stack: s0,
        mode: ModeV::Pending(key),
        comment: false,
    });
    assert(spec_run(st1, seq![' ', '=', ' ']) == st2);
    lemma_run_append(st2, val, "\n"@);
    lemma_word_from(st2, val);
    let st3 = StateV::Run { stack: s1, mode: ModeV::Word(val), comment: false };
    assert("\n"@ =~= seq!['\n']);
    lemma_run1(st3, '\n');
    assert(spec_step(st3, '\n') == StateV::Run {
        stack: s1,
        mode: ModeV::Pending(val),
        comment: false,
    });
}

/// A line that opens a block: `tag = {` pends the tag as the key of the
/// top frame and opens a fresh frame.
proof fn lemma_open_block(st: StateV, tag: Seq<char>)
    requires
        spec_between(st),
        spec_resolve(st)->0.len() >= 1,
        spec_resolve(st)->0.last().key is None,
        spec_wf_word(tag),
    ensures
        spec_run(st, tag + " = {\n"@) == (StateV::Run {
            stack: spec_with_key(spec_resolve(st)->0, tag).push(
                FrameV { header: None, key: None, elems: Seq::empty() },
            ),
            mode: ModeV::Idle,
            comment: false,
        }),
{
    reveal_strlit(" = {\n");
    let s0 = spec_resolve(st)->0;
    let text = tag + " = {\n"@;
    assert(text =~= tag + " = {\n"@);
    lemma_run_append(st, tag, " = {\n"@);
    lemma_word_from(st, tag);
    let st1 = StateV::Run { stack: s0, mode: ModeV::Word(tag), comment: false };
    assert(" = {\n"@ =~= seq![' ', '=', ' ', '{'] + seq!['\n']);
    lemma_run_append(st1, seq![' ', '=', ' ', '{'], seq!['\n']);
    lemma_run4(st1, ' ', '=', ' ', '{');
    let s1 = spec_with_key(s0, tag);
    let s2 = s1.push(FrameV { header: None, key: None, elems: Seq::empty() });
    let st2 = StateV::Run { stack: s2, mode: ModeV::Idle, comment: false };
    assert(spec_run(st1, seq![' ', '=', ' ', '{']) == st2);
    lemma_run1(st2, '\n');
}

/// Space-joined bare words inside an open group become lone scalars.
proof fn lemma_words_into_group(stack: Seq<FrameV>, ws: Seq<Seq<char>>)
    requires
        stack.len() >= 2,
        stack.last().key is None,
        spec_wf_words(ws),
    ensures
        spec_run(
            StateV::Run { stack, mode: ModeV::Idle, comment: false },
            crate::country_definition::spec_words(ws),
        ) == (if ws.len() == 0 {
            StateV::Run { stack, mode: ModeV::Idle, comment: false }
        } else {
            StateV::Run {
                stack: spec_with_lones(stack, ws.drop_last()),
                mode: ModeV::Word(ws.last()),
                comment: false,
            }
        }),
    decreases ws.len(),
{
    reveal_strlit(" ");
    let st0 = StateV::Run { stack, mode: ModeV::Idle, comment: false };
    let words = crate::country_definition::spec_words(ws);
    if ws.len() == 0 {
    } else {
        let dl = ws.drop_last();
        let last = ws.last();
        assert(spec_wf_words(dl));
        lemma_words_into_group(stack, dl);
        assert(" "@ =~= seq![' ']);
        assert(words =~= crate::country_definition::spec_words(dl) + (seq![' '] + last));
        lemma_run_append(st0, crate::country_definition::spec_words(dl), seq![' '] + last);
        let mid = spec_run(st0, crate::country_definition::spec_words(dl));
        if dl.len() == 0 {
            assert(mid == st0);
            lemma_run_append(st0, seq![' '], last);
            lemma_run1(st0, ' ');
            assert(spec_step(st0, ' ') == st0);
            lemma_word_from(st0, last);
            assert(spec_with_lones(stack, dl) =~~= stack);
        } else {
            let s1 = spec_with_lones(stack, dl.drop_last());
            let stw = StateV::Run { stack: s1, mode: ModeV::Word(dl.last()), comment: false };
            assert(mid == stw);
            lemma_run_append(stw, seq![' '], last);
            lemma_run1(stw, ' ');
            let stp = StateV::Run { stack: s1, mode: ModeV::Pending(dl.last()), comment: false };
            assert(spec_step(stw, ' ') == stp);
            assert(s1.last().key is None);
            assert(s1.len() == stack.len());
            lemma_word_from(stp, last);
            let s2 = spec_resolve(stp)->0;
            assert(s2 =~~= spec_with_lones(stack, dl)) by {
                let top = stack.last();
                let m1 = dl.drop_last().map_values(
                    |w: Seq<char>| ElemV::Lone(ValueV::Scalar(w)),
                );
                let m2 = dl.map_values(|w: Seq<char>| ElemV::Lone(ValueV::Scalar(w)));
                assert(m2.len() == m1.len() + 1);
                assert forall|i: int| 0 <= i < m1.len() implies m2[i] == m1[i] by {
                    assert(m1[i] == ElemV::Lone(ValueV::Scalar(dl.drop_last()[i])));
                    assert(m2[i] == ElemV::Lone(ValueV::Scalar(dl[i])));
                }
                assert(m2.last() == ElemV::Lone(ValueV::Scalar(dl.last())));
                assert(m2 =~= m1.push(ElemV::Lone(ValueV::Scalar(dl.last()))));
                assert((top.elems + m1).push(ElemV::Lone(ValueV::Scalar(dl.last()))) =~= top.elems
                    + m2);
            }
        }
    }
}

/// The value a rendered word list reads back as: an empty list is the
/// explicit absent value, a non-empty one an array of scalars.
pub open spec fn spec_arr_value(ws: Seq<Seq<char>>) -> ValueV {
    if ws.len() == 0 {
        ValueV::Absent
    } else {
        ValueV::Array(ws.map_values(|w: Seq<char>| ValueV::Scalar(w)))
    }
}

/// One `key = { words }` line: the whole line attaches one array field
/// to the top frame.
#[verifier::rlimit(80)]
proof fn lemma_array_field_line(st: StateV, key: Seq<char>, ws: Seq<Seq<char>>)
    requires
        spec_between(st),
        spec_resolve(st)->0.len() >= 1,
        spec_resolve(st)->0.last().key is None,
        spec_wf_word(key),
        spec_wf_words(ws),
    ensures
        spec_run(
            st,
            key + " = {"@ + crate::country_definition::spec_words(ws) + " }\n"@,
        ) == (StateV::Run {
            stack: spec_with_field(spec_resolve(st)->0, key, spec_arr_value(ws)),
            mode: ModeV::Idle,
            comment: false,
        }),
{
    reveal_strlit(" = {");
    reveal_strlit(" }\n");
    let s0 = spec_resolve(st)->0;
    let words = crate::country_definition::spec_words(ws);
    let text = key + " = {"@ + words + " }\n"@;
    assert(text =~= key + (" = {"@ + (words + " }\n"@)));
    lemma_run_append(st, key, " = {"@ + (words + " }\n"@));
    lemma_word_from(st, key);
    let st1 = StateV::Run { stack: s0, mode: ModeV::Word(key), comment: false };
    assert(" = {"@ + (words + " }\n"@) =~= seq![' ', '=', ' ', '{'] + (words + " }\n"@));
    lemma_run_append(st1, seq![' ', '=', ' ', '{'], words + " }\n"@);
    lemma_run4(st1, ' ', '=', ' ', '{');
    let s1 = spec_with_key(s0, key);
    let s2 = s1.push(FrameV { header: None, key: None, elems: Seq::empty() });
    let st2 = StateV::Run { stack: s2, mode: ModeV::Idle, comment: false };
    assert(spec_run(st1, seq![' ', '=', ' ', '{']) == st2);
    lemma_run_append(st2, words, " }\n"@);
    assert(s2.last().key is None);
    lemma_words_into_group(s2, ws);
    let stw = spec_run(st2, words);
    assert(" }\n"@ =~= seq![' ', '}', '\n']);
    lemma_run3(stw, ' ', '}', '\n');
    let target = StateV::Run {
        stack: spec_with_field(s0, key, spec_arr_value(ws)),
        mode: ModeV::Idle,
        comment: false,
    };
    if ws.len() == 0 {
        assert(stw == st2);
        assert(spec_step(st2, ' ') == st2);
        assert(spec_step(st2, '}') == target) by {
            assert(spec_group_value(s2.last().elems) == Some(ValueV::Absent));
            assert(spec_close(s2) == Some(spec_with_field(s0, key, ValueV::Absent))) by {
                assert(s2.drop_last() =~= s1);
                assert(spec_commit(s1, ValueV::Absent) is Some);
                assert(spec_commit(s1, ValueV::Absent)->0 =~~= spec_with_field(
                    s0,
                    key,
                    ValueV::Absent,
                ));
            }
        }
        assert(spec_step(target, '\n') == target);
    } else {
        let s3 = spec_with_lones(s2, ws.drop_last());
        assert(stw == StateV::Run { stack: s3, mode: ModeV::Word(ws.last()), comment: false });
        let stp = StateV::Run { stack: s3, mode: ModeV::Pending(ws.last()), comment: false };
        assert(spec_step(stw, ' ') == stp);
        let m2 = ws.map_values(|w: Seq<char>| ElemV::Lone(ValueV::Scalar(w)));
        let s4 = spec_commit(s3, ValueV::Scalar(ws.last()))->0;
        assert(spec_commit(s3, ValueV::Scalar(ws.last())) is Some);
        assert(s4.last().elems =~= m2) by {
            let m1 = ws.drop_last().map_values(|w: Seq<char>| ElemV::Lone(ValueV::Scalar(w)));
            assert(m2.len() == m1.len() + 1);
            assert forall|i: int| 0 <= i < m1.len() implies m2[i] == m1[i] by {
                assert(m1[i] == ElemV::Lone(ValueV::Scalar(ws.drop_last()[i])));
                assert(m2[i] == ElemV::Lone(ValueV::Scalar(ws[i])));
            }
            assert(m2.last() == ElemV::Lone(ValueV::Scalar(ws.last())));
            assert(m2 =~= m1.push(ElemV::Lone(ValueV::Scalar(ws.last()))));
            assert(s3.last().elems =~= Seq::<ElemV>::empty() + m1);
            assert(Seq::<ElemV>::empty() + m1 =~= m1);
        }
        assert(spec_step(stp, '}') == target) by {
            let scal = ws.map_values(|w: Seq<char>| ValueV::Scalar(w));
            let gv = spec_group_value(s4.last().elems);
            assert(forall|i: int| 0 <= i < m2.len() ==> m2[i] is Lone);
            assert(m2.len() > 0);
            assert(!(m2[0] is Field));
            assert(gv is Some && gv->0 is Array);
            assert(gv->0->Array_0 =~~= scal) by {
                let got = gv->0->Array_0;
                assert(got.len() == scal.len());
                assert forall|i: int| 0 <= i < scal.len() implies got[i] == scal[i] by {
                    assert(got[i] == s4.last().elems[i]->Lone_0);
                    assert(s4.last().elems[i] == ElemV::Lone(ValueV::Scalar(ws[i])));
                    assert(scal[i] == ValueV::Scalar(ws[i]));
                }
            }
            assert(gv == Some(ValueV::Array(scal)));
            assert(s4.last().key is None);
            assert(s4.last().header is None);
            assert(s4.len() == s2.len());
            assert(s4.drop_last() =~= s1);
            assert(spec_close(s4) is Some);
            assert(spec_close(s4)->0 =~~= spec_with_field(s0, key, spec_arr_value(ws)));
        }
        assert(spec_step(target, '\n') == target);
    }
}

/// The format tag of a color.
pub open spec fn spec_color_tag(c: crate::color::ColorV) -> Seq<char> {
    match c {
        crate::color::ColorV::Hsv(_, _, _) => "hsv"@,
        crate::color::ColorV::Hsv360(_, _, _) => "hsv360"@,
        crate::color::ColorV::Rgb(_, _, _) => "rgb"@,
    }
}

/// The three component texts of a color.
pub open spec fn spec_color_comps(c: crate::color::ColorV) -> (Seq<char>, Seq<char>, Seq<char>) {
    match c {
        crate::color::ColorV::Hsv(a, b, v) => (a, b, v),
        crate::color::ColorV::Hsv360(a, b, v) => (
            crate::text::spec_dec(a as nat),
            crate::text::spec_dec(b as nat),
            crate::text::spec_dec(v as nat),
        ),
        crate::color::ColorV::Rgb(a, b, v) => (
            crate::text::spec_dec(a as nat),
            crate::text::spec_dec(b as nat),
            crate::text::spec_dec(v as nat),
        ),
    }
}

/// The value a rendered color reads back in from the text: the tagged
/// two-element array form.
pub open spec fn spec_color_value(c: crate::color::ColorV) -> ValueV {
    ValueV::Array(
        seq![
            ValueV::Scalar(spec_color_tag(c)),
            ValueV::Array(
                seq![
                    ValueV::Scalar(spec_color_comps(c).0),
                    ValueV::Scalar(spec_color_comps(c).1),
                    ValueV::Scalar(spec_color_comps(c).2),
                ],
            ),
        ],
    )
}

/// A fractional-number component that can stand as a bare token.
pub open spec fn spec_wf_color(c: crate::color::ColorV) -> bool {
    match c {
        crate::color::ColorV::Hsv(a, b, v) => crate::text::spec_is_float_text(a)
            && crate::text::spec_is_float_text(b) && crate::text::spec_is_float_text(v),
        _ => true,
    }
}

/// Every character of a decimal rendering is a digit.
proof fn lemma_dec_digits(n: nat)
    ensures
        crate::text::spec_dec(n).len() > 0,
        forall|i: int|
            0 <= i < crate::text::spec_dec(n).len() ==> crate::text::spec_is_digit_char(
                #[trigger] crate::text::spec_dec(n)[i],
            ),
    decreases n,
{
    if n >= 10 {
        lemma_dec_digits(n / 10);
    }
}

/// A digit character is a bare character.
proof fn lemma_digit_bare(c: char)
    requires
        crate::text::spec_is_digit_char(c),
    ensures
        spec_bare(c),
{
}

/// A decimal rendering can stand as a bare token.
proof fn lemma_dec_wf(n: nat)
    ensures
        spec_wf_word(crate::text::spec_dec(n)),
{
    lemma_dec_digits(n);
    assert forall|i: int| 0 <= i < crate::text::spec_dec(n).len() implies spec_bare(
        crate::text::spec_dec(n)[i],
    ) by {
        lemma_digit_bare(crate::text::spec_dec(n)[i]);
    }
}

/// A decimal rendering parses back to its value.
proof fn lemma_dec_parse(n: nat)
    requires
        n <= u64::MAX,
    ensures
        crate::text::spec_parse_u64(crate::text::spec_dec(n)) == crate::text::ParsedUInt::Val(
            n as u64,
        ),
{
    lemma_dec_digits(n);
    lemma_dec_val(n);
    assert(crate::text::spec_is_digits(crate::text::spec_dec(n)));
}

/// The value of a decimal rendering's digits.
proof fn lemma_dec_val(n: nat)
    ensures
        crate::text::spec_digits_val(crate::text::spec_dec(n)) == n,
    decreases n,
{
    let d = crate::text::spec_dec(n);
    if n < 10 {
        assert(d == seq![crate::text::spec_digit_char(n)]);
        assert(d.drop_last() =~= Seq::<char>::empty());
        assert(d.last() == crate::text::spec_digit_char(n));
        assert(crate::text::spec_digits_val(Seq::<char>::empty()) == 0);
        assert(crate::text::spec_digit_val(crate::text::spec_digit_char(n)) == n);
        assert(crate::text::spec_digits_val(d) == 0 * 10 + crate::text::spec_digit_val(d.last()));
    } else {
        lemma_dec_val(n / 10);
        assert(d == crate::text::spec_dec(n / 10).push(crate::text::spec_digit_char(n % 10)));
        assert(d.drop_last() =~= crate::text::spec_dec(n / 10));
        assert(d.last() == crate::text::spec_digit_char(n % 10));
        assert(crate::text::spec_digit_val(crate::text::spec_digit_char(n % 10)) == n % 10);
        assert(crate::text::spec_digits_val(d) == crate::text::spec_digits_val(d.drop_last()) * 10
            + crate::text::spec_digit_val(d.last()));
        assert(n == (n / 10) * 10 + n % 10) by (nonlinear_arith);
    }
}

/// The reject state of the number recognizer absorbs everything.
proof fn lemma_float_reject(s: Seq<char>)
    ensures
        crate::text::spec_float_scan(crate::text::FloatScan::Reject, s)
            == crate::text::FloatScan::Reject,
    decreases s.len(),
{
    if s.len() > 0 {
        lemma_float_reject(s.drop_first());
    }
}

/// A text the number recognizer accepts holds only digits, minus signs
/// and points.
proof fn lemma_float_chars(st: crate::text::FloatScan, s: Seq<char>)
    requires
        crate::text::spec_float_scan(st, s) != crate::text::FloatScan::Reject,
    ensures
        forall|i: int|
            0 <= i < s.len() ==> (crate::text::spec_is_digit_char(#[trigger] s[i]) || s[i] == '-'
                || s[i] == '.'),
    decreases s.len(),
{
    if s.len() > 0 {
        let c = s[0];
        if !(crate::text::spec_is_digit_char(c) || c == '-' || c == '.') {
            assert(crate::text::spec_float_step(st, c) == crate::text::FloatScan::Reject);
            lemma_float_reject(s.drop_first());
            assert(false);
        }
        lemma_float_chars(crate::text::spec_float_step(st, c), s.drop_first());
        assert forall|i: int|
            1 <= i < s.len() implies (crate::text::spec_is_digit_char(#[trigger] s[i]) || s[i]
                == '-' || s[i] == '.') by {
            assert(s.drop_first()[i - 1] == s[i]);
        }
    }
}

/// A fractional-number text can stand as a bare token.
proof fn lemma_float_wf(s: Seq<char>)
    requires
        crate::text::spec_is_float_text(s),
    ensures
        spec_wf_word(s),
{
    assert(s.len() > 0) by {
        if s.len() == 0 {
            assert(crate::text::spec_float_scan(crate::text::FloatScan::Start, s)
                == crate::text::FloatScan::Start);
        }
    }
    lemma_float_chars(crate::text::FloatScan::Start, s);
    assert forall|i: int| 0 <= i < s.len() implies spec_bare(s[i]) by {
        if crate::text::spec_is_digit_char(s[i]) {
            lemma_digit_bare(s[i]);
        }
    }
}

/// The three component texts of a well-formed color are bare tokens.
proof fn lemma_color_comps_wf(c: crate::color::ColorV)
    requires
        spec_wf_color(c),
    ensures
        spec_wf_word(spec_color_comps(c).0),
        spec_wf_word(spec_color_comps(c).1),
        spec_wf_word(spec_color_comps(c).2),
{
    match c {
        crate::color::ColorV::Hsv(a, b, v) => {
            lemma_float_wf(a);
            lemma_float_wf(b);
            lemma_float_wf(v);
        },
        crate::color::ColorV::Hsv360(a, b, v) => {
            lemma_dec_wf(a as nat);
            lemma_dec_wf(b as nat);
            lemma_dec_wf(v as nat);
        },
        crate::color::ColorV::Rgb(a, b, v) => {
            lemma_dec_wf(a as nat);
            lemma_dec_wf(b as nat);
            lemma_dec_wf(v as nat);
        },
    }
}

/// The format tag is a bare token.
proof fn lemma_color_tag_wf(c: crate::color::ColorV)
    ensures
        spec_wf_word(spec_color_tag(c)),
{
    reveal_strlit("hsv");
    reveal_strlit("hsv360");
    reveal_strlit("rgb");
    match c {
        crate::color::ColorV::Hsv(_, _, _) => {
            assert(forall|i: int| 0 <= i < "hsv"@.len() ==> spec_bare(#[trigger] "hsv"@[i]));
        },
        crate::color::ColorV::Hsv360(_, _, _) => {
            assert(forall|i: int| 0 <= i < "hsv360"@.len() ==> spec_bare(#[trigger] "hsv360"@[i]));
        },
        crate::color::ColorV::Rgb(_, _, _) => {
            assert(forall|i: int| 0 <= i < "rgb"@.len() ==> spec_bare(#[trigger] "rgb"@[i]));
        },
    }
}

/// Law: a color rendered in its canonical tagged form reads back as
/// exactly the same color; in particular every `hsv { h s v }` triple
/// comes back with its components exactly as given.
pub proof fn lemma_color_read(c: crate::color::ColorV)
    requires
        spec_wf_color(c),
    ensures
        crate::value_reader::spec_read_color(spec_color_value(c)) == Some(c),
{
    reveal_strlit("hsv");
    reveal_strlit("hsv360");
    reveal_strlit("rgb");
    assert("hsv"@.len() == 3 && "hsv360"@.len() == 6 && "rgb"@.len() == 3);
    assert("rgb"@[0] == 'r' && "hsv"@[0] == 'h');
    let v = spec_color_value(c);
    let items = v->Array_0;
    assert(items.len() == 2);
    let inner = items[1]->Array_0;
    assert(inner.len() == 3 && (forall|i: int| 0 <= i < inner.len() ==> inner[i] is Scalar));
    match c {
        crate::color::ColorV::Hsv(a, b, w) => {
        },
        crate::color::ColorV::Hsv360(a, b, w) => {
            assert(spec_color_tag(c) != "hsv"@);
            assert(spec_color_tag(c) != "rgb"@);
            lemma_dec_parse(a as nat);
            lemma_dec_parse(b as nat);
            lemma_dec_parse(w as nat);
        },
        crate::color::ColorV::Rgb(a, b, w) => {
            assert(spec_color_tag(c) != "hsv"@);
            lemma_dec_parse(a as nat);
            lemma_dec_parse(b as nat);
            lemma_dec_parse(w as nat);
        },
    }
}

/// Closing a block: the pending token, if any, commits, the top group
/// becomes a value and attaches to the frame below.
proof fn lemma_close_block(st: StateV)
    requires
        spec_between(st),
        spec_resolve(st)->0.len() >= 2,
        spec_resolve(st)->0.last().key is None,
        spec_close(spec_resolve(st)->0) is Some,
    ensures
        spec_run(st, seq!['}']) == (StateV::Run {
            stack: spec_close(spec_resolve(st)->0)->0,
            mode: ModeV::Idle,
            comment: false,
        }),
{
    let s0 = spec_resolve(st)->0;
    lemma_run1(st, '}');
    match st->Run_mode {
        ModeV::Idle => {},
        ModeV::Pending(w) => {
            assert(spec_step(st, '}') == spec_word_step(st->Run_stack, w, '}'));
        },
        _ => {
            assert(false);
        },
    }
}

/// The three components and closing brace of a color group: from just
/// inside the tagged group, the components commit as lone scalars and
/// the brace closes the group into the tagged two-element array, which
/// attaches below.
#[verifier::rlimit(100)]
proof fn lemma_color_body(s1: Seq<FrameV>, c: crate::color::ColorV)
    requires
        s1.len() >= 1,
        spec_wf_color(c),
        spec_commit(s1, spec_color_value(c)) is Some,
    ensures
        spec_run(
            StateV::Run {
                stack: s1.push(
                    FrameV { header: Some(spec_color_tag(c)), key: None, elems: Seq::empty() },
                ),
                mode: ModeV::Idle,
                comment: false,
            },
            spec_color_comps(c).0 + (seq![' '] + (spec_color_comps(c).1 + (seq![' '] + (
            spec_color_comps(c).2 + seq![' ', '}', '\n'])))),
        ) == (StateV::Run {
            stack: spec_commit(s1, spec_color_value(c))->0,
            mode: ModeV::Idle,
            comment: false,
        }),
{
    let tag = spec_color_tag(c);
    let (wa, wb, wc) = spec_color_comps(c);
    lemma_color_comps_wf(c);
    let s2 = s1.push(FrameV { header: Some(tag), key: None, elems: Seq::empty() });
    let st4 = StateV::Run { stack: s2, mode: ModeV::Idle, comment: false };
    lemma_run_append(st4, wa, seq![' '] + (wb + (seq![' '] + (wc + seq![' ', '}', '\n']))));
    lemma_word_from(st4, wa);
    let st5 = StateV::Run { stack: s2, mode: ModeV::Word(wa), comment: false };
    lemma_run_append(st5, seq![' '], wb + (seq![' '] + (wc + seq![' ', '}', '\n'])));
    lemma_run1(st5, ' ');
    let st6 = StateV::Run { stack: s2, mode: ModeV::Pending(wa), comment: false };
    assert(spec_step(st5, ' ') == st6);
    lemma_run_append(st6, wb, seq![' '] + (wc + seq![' ', '}', '\n']));
    lemma_word_from(st6, wb);
    let s3 = spec_resolve(st6)->0;
    let st7 = StateV::Run { stack: s3, mode: ModeV::Word(wb), comment: false };
    lemma_run_append(st7, seq![' '], wc + seq![' ', '}', '\n']);
    lemma_run1(st7, ' ');
    let st8 = StateV::Run { stack: s3, mode: ModeV::Pending(wb), comment: false };
    assert(spec_step(st7, ' ') == st8);
    lemma_run_append(st8, wc, seq![' ', '}', '\n']);
    assert(s3.last().key is None && s3.len() == s2.len());
    lemma_word_from(st8, wc);
    let s4 = spec_resolve(st8)->0;
    let st9 = StateV::Run { stack: s4, mode: ModeV::Word(wc), comment: false };
    lemma_run3(st9, ' ', '}', '\n');
    let st10 = StateV::Run { stack: s4, mode: ModeV::Pending(wc), comment: false };
    assert(spec_step(st9, ' ') == st10);
    let s5 = spec_commit(s4, ValueV::Scalar(wc))->0;
    assert(spec_commit(s4, ValueV::Scalar(wc)) is Some);
    assert(s5.last().elems =~= seq![
        ElemV::Lone(ValueV::Scalar(wa)),
        ElemV::Lone(ValueV::Scalar(wb)),
        ElemV::Lone(ValueV::Scalar(wc)),
    ]);
    let target = StateV::Run {
        stack: spec_commit(s1, spec_color_value(c))->0,
        mode: ModeV::Idle,
        comment: false,
    };
    assert(spec_step(st10, '}') == target) by {
        let gv = spec_group_value(s5.last().elems);
        assert(s5.last().elems[0] is Lone);
        assert(!(s5.last().elems[0] is Field));
        assert(gv is Some && gv->0 is Array);
        assert(gv->0->Array_0 =~~= seq![
            ValueV::Scalar(wa),
            ValueV::Scalar(wb),
            ValueV::Scalar(wc),
        ]) by {
            let got = gv->0->Array_0;
            assert(got.len() == 3);
            assert(got[0] == s5.last().elems[0]->Lone_0);
            assert(got[1] == s5.last().elems[1]->Lone_0);
            assert(got[2] == s5.last().elems[2]->Lone_0);
        }
        assert(s5.last().header == Some(tag));
        assert(s5.last().key is None);
        assert(s5.len() == s2.len() && s5.len() >= 2);
        assert(s5.drop_last() =~= s1);
        assert(spec_wrap_header(s5.last().header, gv->0) =~~= spec_color_value(c));
        assert(spec_close(s5) is Some);
        assert(spec_close(s5)->0 == spec_commit(s1, spec_color_value(c))->0) by {
            assert(spec_wrap_header(s5.last().header, gv->0) == spec_color_value(c));
        }
    }
    assert(spec_step(target, '\n') == target);
}

/// One `key = <kind> { a b c }` line: the whole line attaches one color
/// field, in the tagged header form, to the top frame.
#[verifier::rlimit(100)]
proof fn lemma_color_field_line(st: StateV, key: Seq<char>, c: crate::color::ColorV)
    requires
        spec_between(st),
        spec_resolve(st)->0.len() >= 1,
        spec_resolve(st)->0.last().key is None,
        spec_wf_word(key),
        spec_wf_color(c),
    ensures
        spec_run(st, key + " = "@ + crate::color::spec_color_text(c) + "\n"@) == (StateV::Run {
            stack: spec_with_field(spec_resolve(st)->0, key, spec_color_value(c)),
            mode: ModeV::Idle,
            comment: false,
        }),
{
    reveal_strlit(" = ");
    reveal_strlit(" { ");
    reveal_strlit(" }");
    reveal_strlit("\n");
    reveal_strlit("hsv");
    reveal_strlit("hsv360");
    reveal_strlit("rgb");
    reveal_strlit("hsv { ");
    reveal_strlit("hsv360 { ");
    reveal_strlit("rgb { ");
    reveal_strlit(" ");
    let s0 = spec_resolve(st)->0;
    let tag = spec_color_tag(c);
    let (wa, wb, wc) = spec_color_comps(c);
    lemma_color_tag_wf(c);
    lemma_color_comps_wf(c);
    let body = tag + " { "@ + wa + " "@ + wb + " "@ + wc + " }"@;
    assert(crate::color::spec_color_text(c) =~= body) by {
        match c {
            crate::color::ColorV::Hsv(x, y, z) => {
                assert("hsv { "@ =~= "hsv"@ + " { "@);
            },
            crate::color::ColorV::Hsv360(x, y, z) => {
                assert("hsv360 { "@ =~= "hsv360"@ + " { "@);
            },
            crate::color::ColorV::Rgb(x, y, z) => {
                assert("rgb { "@ =~= "rgb"@ + " { "@);
            },
        }
    }
    let text = key + " = "@ + crate::color::spec_color_text(c) + "\n"@;
    assert(text =~= key + (seq![' ', '=', ' '] + (tag + (seq![' ', '{', ' '] + (wa + (seq![' ']
        + (wb + (seq![' '] + (wc + seq![' ', '}', '\n'])))))))));
    // the key and the equals sign
    lemma_run_append(st, key, seq![' ', '=', ' '] + (tag + (seq![' ', '{', ' '] + (wa + (seq![' ']
        + (wb + (seq![' '] + (wc + seq![' ', '}', '\n']))))))));
    lemma_word_from(st, key);
    let st1 = StateV::Run { stack: s0, mode: ModeV::Word(key), comment: false };
    lemma_run_append(st1, seq![' ', '=', ' '], tag + (seq![' ', '{', ' '] + (wa + (seq![' '] + (wb
        + (seq![' '] + (wc + seq![' ', '}', '\n'])))))));
    lemma_run3(st1, ' ', '=', ' ');
    let s1 = spec_with_key(s0, key);
    let st2 = StateV::Run { stack: s1, mode: ModeV::Idle, comment: false };
    assert(spec_run(st1, seq![' ', '=', ' ']) == st2);
    // the format tag and the opening brace
    lemma_run_append(st2, tag, seq![' ', '{', ' '] + (wa + (seq![' '] + (wb + (seq![' '] + (wc
        + seq![' ', '}', '\n']))))));
    lemma_word_from(st2, tag);
    let st3 = StateV::Run { stack: s1, mode: ModeV::Word(tag), comment: false };
    lemma_run_append(st3, seq![' ', '{', ' '], wa + (seq![' '] + (wb + (seq![' '] + (wc + seq![
        ' ',
        '}',
        '\n',
    ])))));
    lemma_run3(st3, ' ', '{', ' ');
    let s2 = s1.push(FrameV { header: Some(tag), key: None, elems: Seq::empty() });
    let st4 = StateV::Run { stack: s2, mode: ModeV::Idle, comment: false };
    assert(spec_run(st3, seq![' ', '{', ' ']) == st4);
    // the three components and the closing brace
    assert(s1.last().key == Some(key));
    assert(spec_commit(s1, spec_color_value(c)) is Some);
    lemma_color_body(s1, c);
    assert(spec_commit(s1, spec_color_value(c))->0 =~~= spec_with_field(
        s0,
        key,
        spec_color_value(c),
    ));
}

/// A rendered word list reads back as the same list.
proof fn lemma_arr_read(ws: Seq<Seq<char>>)
    ensures
        crate::value_reader::spec_read_string_array(spec_arr_value(ws)) == Some(ws),
{
    if ws.len() == 0 {
        assert(crate::value_reader::spec_read_string_array(ValueV::Absent) == Some(
            Seq::<Seq<char>>::empty(),
        ));
        assert(ws =~= Seq::<Seq<char>>::empty());
    } else {
        let items = ws.map_values(|w: Seq<char>| ValueV::Scalar(w));
        assert(forall|i: int| 0 <= i < items.len() ==> items[i] is Scalar);
        let got = crate::value_reader::spec_read_string_array(spec_arr_value(ws));
        assert(got is Some);
        assert(got->0 =~= ws) by {
            assert(got->0.len() == ws.len());
            assert forall|i: int| 0 <= i < ws.len() implies got->0[i] == ws[i] by {
                assert(items[i] == ValueV::Scalar(ws[i]));
                assert(got->0[i] == items[i]->Scalar_0);
            }
        }
    }
}

/// Applying a concatenation of field lists applies each in turn.
proof fn lemma_cd_apply_fields_append(
    b: crate::country_definition::CdBuilderV,
    f1: Seq<FieldV>,
    f2: Seq<FieldV>,
)
    ensures
        crate::country_definition::spec_cd_apply_fields(b, f1 + f2)
            == crate::country_definition::spec_cd_apply_fields(
            crate::country_definition::spec_cd_apply_fields(b, f1),
            f2,
        ),
    decreases f2.len(),
{
    if f2.len() == 0 {
        assert(f1 + f2 =~= f1);
    } else {
        assert((f1 + f2).drop_last() =~= f1 + f2.drop_last());
        assert((f1 + f2).last() == f2.last());
        lemma_cd_apply_fields_append(b, f1, f2.drop_last());
    }
}

/// Applying a single field unfolds to one application.
proof fn lemma_cd_apply_one(b: crate::country_definition::CdBuilderV, f: FieldV)
    ensures
        crate::country_definition::spec_cd_apply_fields(b, seq![f])
            == crate::country_definition::spec_cd_apply(b, f.key, f.val).0,
{
    let s = seq![f];
    assert(s.drop_last() =~= Seq::<FieldV>::empty());
    assert(s.last() == f);
    assert(crate::country_definition::spec_cd_apply_fields(b, Seq::<FieldV>::empty()) == b);
}

/// The fields of a country definition's canonical rendering, in the
/// order the serializer emits them.
pub open spec fn spec_cd_field_list(e: crate::country_definition::CountryDefinitionV) -> Seq<
    FieldV,
> {
    seq![
        FieldV { key: "color"@, val: spec_color_value(e.color) },
        FieldV { key: "country_type"@, val: ValueV::Scalar(e.country_type) },
        FieldV {
            key: "tier"@,
            val: ValueV::Scalar(crate::country_tier::spec_tier_str(e.tier)),
        },
        FieldV { key: "cultures"@, val: spec_arr_value(e.cultures) },
    ] + (match e.capital {
        Some(cap) => seq![FieldV { key: "capital"@, val: ValueV::Scalar(cap) }],
        None => Seq::<FieldV>::empty(),
    }) + (match e.religion {
        Some(rel) => seq![FieldV { key: "religion"@, val: ValueV::Scalar(rel) }],
        None => Seq::<FieldV>::empty(),
    })
}

/// A valid country definition: every text a bare token, every
/// hue/saturation/value component a fractional number.
pub open spec fn spec_wf_cd(e: crate::country_definition::CountryDefinitionV) -> bool {
    spec_wf_word(e.tag) && spec_wf_words(e.cultures) && spec_wf_word(e.country_type)
        && spec_wf_color(e.color) && (match e.religion {
        Some(r) => spec_wf_word(r),
        None => true,
    }) && (match e.capital {
        Some(ca) => spec_wf_word(ca),
        None => true,
    })
}

/// Building back the rendered fields of a valid country definition
/// yields the same entity, with no diagnostics.
proof fn lemma_cd_build_fields(e: crate::country_definition::CountryDefinitionV)
    requires
        spec_wf_cd(e),
    ensures
        crate::country_definition::spec_cd_entity(e.tag, spec_cd_field_list(e)) == (
            Some(e),
            Seq::<crate::logger::DiagV>::empty(),
        ),
{
    reveal_strlit("color");
    reveal_strlit("country_type");
    reveal_strlit("tier");
    reveal_strlit("cultures");
    reveal_strlit("capital");
    reveal_strlit("religion");
    assert("color"@.len() == 5 && "country_type"@.len() == 12 && "tier"@.len() == 4
        && "cultures"@.len() == 8 && "capital"@.len() == 7 && "religion"@.len() == 8);
    assert("cultures"@[0] == 'c' && "religion"@[0] == 'r');
    let b0 = crate::country_definition::spec_cd_apply_root(
        crate::country_definition::spec_cd_new(),
        e.tag,
    );
    let base = seq![
        FieldV { key: "color"@, val: spec_color_value(e.color) },
        FieldV { key: "country_type"@, val: ValueV::Scalar(e.country_type) },
        FieldV {
            key: "tier"@,
            val: ValueV::Scalar(crate::country_tier::spec_tier_str(e.tier)),
        },
        FieldV { key: "cultures"@, val: spec_arr_value(e.cultures) },
    ];
    let capf = match e.capital {
        Some(cap) => seq![FieldV { key: "capital"@, val: ValueV::Scalar(cap) }],
        None => Seq::<FieldV>::empty(),
    };
    let relf = match e.religion {
        Some(rel) => seq![FieldV { key: "religion"@, val: ValueV::Scalar(rel) }],
        None => Seq::<FieldV>::empty(),
    };
    lemma_color_read(e.color);
    crate::country_tier::lemma_tier_round_trip(e.tier);
    lemma_arr_read(e.cultures);
    // the four required fields, one apply at a time
    let b1 = crate::country_definition::spec_cd_apply(b0, "color"@, spec_color_value(e.color)).0;
    let b2 = crate::country_definition::spec_cd_apply(
        b1,
        "country_type"@,
        ValueV::Scalar(e.country_type),
    ).0;
    let b3 = crate::country_definition::spec_cd_apply(
        b2,
        "tier"@,
        ValueV::Scalar(crate::country_tier::spec_tier_str(e.tier)),
    ).0;
    let b4 = crate::country_definition::spec_cd_apply(
        b3,
        "cultures"@,
        spec_arr_value(e.cultures),
    ).0;
    let fcolor = FieldV { key: "color"@, val: spec_color_value(e.color) };
    let fct = FieldV { key: "country_type"@, val: ValueV::Scalar(e.country_type) };
    let ftier = FieldV {
        key: "tier"@,
        val: ValueV::Scalar(crate::country_tier::spec_tier_str(e.tier)),
    };
    let fcult = FieldV { key: "cultures"@, val: spec_arr_value(e.cultures) };
    let e0 = Seq::<FieldV>::empty();
    let s1 = seq![fcolor];
    let s2 = seq![fcolor, fct];
    let s3 = seq![fcolor, fct, ftier];
    assert(s1.drop_last() =~= e0 && s1.last() == fcolor);
    assert(s2.drop_last() =~= s1 && s2.last() == fct);
    assert(s3.drop_last() =~= s2 && s3.last() == ftier);
    assert(base.drop_last() =~= s3 && base.last() == fcult);
    assert(crate::country_definition::spec_cd_apply_fields(b0, e0) == b0);
    assert(crate::country_definition::spec_cd_apply_fields(b0, s1) == b1);
    assert(crate::country_definition::spec_cd_apply_fields(b0, s2) == b2);
    assert(crate::country_definition::spec_cd_apply_fields(b0, s3) == b3);
    assert(crate::country_definition::spec_cd_apply_fields(b0, base) == b4);
    // then the two optional fields
    let b5 = crate::country_definition::spec_cd_apply_fields(b4, capf);
    let b6 = crate::country_definition::spec_cd_apply_fields(b5, relf);
    assert(spec_cd_field_list(e) =~= (base + capf) + relf);
    lemma_cd_apply_fields_append(b0, base, capf);
    assert(crate::country_definition::spec_cd_apply_fields(b0, base + capf) == b5);
    lemma_cd_apply_fields_append(b0, base + capf, relf);
    assert(crate::country_definition::spec_cd_apply_fields(b0, (base + capf) + relf) == b6);
    match e.capital {
        Some(cap) => {
            assert(capf == seq![FieldV { key: "capital"@, val: ValueV::Scalar(cap) }]);
            assert(capf.drop_last() =~= Seq::<FieldV>::empty());
            assert(capf.last() == (FieldV { key: "capital"@, val: ValueV::Scalar(cap) }));
            lemma_cd_apply_one(b4, FieldV { key: "capital"@, val: ValueV::Scalar(cap) });
            assert(b5 == crate::country_definition::spec_cd_apply(
                b4,
                "capital"@,
                ValueV::Scalar(cap),
            ).0);
        },
        None => {
            assert(b5 == b4);
        },
    }
    match e.religion {
        Some(rel) => {
            assert(relf == seq![FieldV { key: "religion"@, val: ValueV::Scalar(rel) }]);
            assert(relf.drop_last() =~= Seq::<FieldV>::empty());
            assert(relf.last() == (FieldV { key: "religion"@, val: ValueV::Scalar(rel) }));
            lemma_cd_apply_one(b5, FieldV { key: "religion"@, val: ValueV::Scalar(rel) });
            assert(b6 == crate::country_definition::spec_cd_apply(
                b5,
                "religion"@,
                ValueV::Scalar(rel),
            ).0);
        },
        None => {
            assert(b6 == b5);
        },
    }
    assert(b6.tag == Some(e.tag));
    assert(b6.color == Some(e.color));
    assert(b6.country_type == Some(e.country_type));
    assert(b6.tier == Some(e.tier));
    assert(b6.cultures == Some(e.cultures));
    assert(b6.capital == e.capital);
    assert(b6.religion == e.religion);
    assert(b6.diags =~= Seq::<crate::logger::DiagV>::empty());
    let (res, diags) = crate::country_definition::spec_cd_build(b6);
    assert(res is Some);
    assert(res->0 =~~= e);
}

/// Committing a pending scalar under a pending key attaches the field.
proof fn lemma_resolve_with_key(s: Seq<FrameV>, k: Seq<char>, v: Seq<char>)
    requires
        s.len() >= 1,
    ensures
        spec_commit(spec_with_key(s, k), ValueV::Scalar(v)) is Some,
        spec_commit(spec_with_key(s, k), ValueV::Scalar(v))->0 =~~= spec_with_field(
            s,
            k,
            ValueV::Scalar(v),
        ),
{
    let s1 = spec_with_key(s, k);
    assert(s1.last().key == Some(k));
}

/// The segments of a rendered country definition.
pub open spec fn cd_seg_a(e: crate::country_definition::CountryDefinitionV) -> Seq<char> {
    e.tag + " = {\n"@
}

/// The color line of a rendered country definition.
pub open spec fn cd_seg_b(e: crate::country_definition::CountryDefinitionV) -> Seq<char> {
    "color"@ + " = "@ + crate::color::spec_color_text(e.color) + "\n"@
}

/// The country-type line.
pub open spec fn cd_seg_c(e: crate::country_definition::CountryDefinitionV) -> Seq<char> {
    "country_type"@ + " = "@ + e.country_type + "\n"@
}

/// The tier line.
pub open spec fn cd_seg_d(e: crate::country_definition::CountryDefinitionV) -> Seq<char> {
    "tier"@ + " = "@ + crate::country_tier::spec_tier_str(e.tier) + "\n"@
}

/// The cultures line.
pub open spec fn cd_seg_f(e: crate::country_definition::CountryDefinitionV) -> Seq<char> {
    "cultures"@ + " = {"@ + crate::country_definition::spec_words(e.cultures) + " }\n"@
}

/// The capital line or its comment placeholder.
pub open spec fn cd_seg_g(e: crate::country_definition::CountryDefinitionV) -> Seq<char> {
    match e.capital {
        Some(cap) => "capital"@ + " = "@ + cap + "\n"@,
        None => seq!['#'] + " No Capital"@ + seq!['\n'],
    }
}

/// The religion line or its comment placeholder.
pub open spec fn cd_seg_h(e: crate::country_definition::CountryDefinitionV) -> Seq<char> {
    match e.religion {
        Some(rel) => "religion"@ + " = "@ + rel + "\n"@,
        None => seq!['#'] + " No Religion"@ + seq!['\n'],
    }
}

/// The rendered text splits into its lines.
proof fn lemma_cd_text_split(e: crate::country_definition::CountryDefinitionV)
    ensures
        crate::country_definition::spec_cd_to_pdx(e) == cd_seg_a(e) + (cd_seg_b(e) + (cd_seg_c(e)
            + (cd_seg_d(e) + (cd_seg_f(e) + (cd_seg_g(e) + (cd_seg_h(e) + seq!['}'])))))),
{
    assert(crate::country_definition::spec_cd_to_pdx(e) =~= cd_seg_a(e) + (cd_seg_b(e) + (
    cd_seg_c(e) + (cd_seg_d(e) + (cd_seg_f(e) + (cd_seg_g(e) + (cd_seg_h(e) + seq!['}'])))))));
}

/// The stack after the first six lines of a rendered country
/// definition: the open entity frame holds the four required fields and
/// whichever optional fields are present.
pub open spec fn cd_mid_stack(e: crate::country_definition::CountryDefinitionV) -> Seq<FrameV> {
    let root0 = FrameV { header: None, key: None, elems: Seq::empty() };
    let sa = spec_with_key(seq![root0], e.tag).push(
        FrameV { header: None, key: None, elems: Seq::empty() },
    );
    let sb = spec_with_field(sa, "color"@, spec_color_value(e.color));
    let sc = spec_with_field(sb, "country_type"@, ValueV::Scalar(e.country_type));
    let sd = spec_with_field(sc, "tier"@, ValueV::Scalar(crate::country_tier::spec_tier_str(e.tier)));
    let se = spec_with_field(sd, "cultures"@, spec_arr_value(e.cultures));
    let sf = match e.capital {
        Some(cap) => spec_with_field(se, "capital"@, ValueV::Scalar(cap)),
        None => se,
    };
    match e.religion {
        Some(rel) => spec_with_field(sf, "religion"@, ValueV::Scalar(rel)),
        None => sf,
    }
}

/// Walking the parser over the lines of a rendered country definition,
/// up to but not including the closing brace.
#[verifier::rlimit(100)]
proof fn lemma_cd_walk_lines(e: crate::country_definition::CountryDefinitionV)
    requires
        spec_wf_cd(e),
    ensures
        spec_between(
            spec_run(
                spec_init(),
                cd_seg_a(e) + (cd_seg_b(e) + (cd_seg_c(e) + (cd_seg_d(e) + (cd_seg_f(e) + (
                cd_seg_g(e) + cd_seg_h(e)))))),
            ),
        ),
        spec_resolve(
            spec_run(
                spec_init(),
                cd_seg_a(e) + (cd_seg_b(e) + (cd_seg_c(e) + (cd_seg_d(e) + (cd_seg_f(e) + (
                cd_seg_g(e) + cd_seg_h(e)))))),
            ),
        ) == Some(cd_mid_stack(e)),
{
    reveal_strlit("color");
    reveal_strlit("country_type");
    reveal_strlit("tier");
    reveal_strlit("cultures");
    reveal_strlit("capital");
    reveal_strlit("religion");
    reveal_strlit(" No Capital");
    reveal_strlit(" No Religion");
    assert(spec_wf_word("color"@)) by {
        assert(forall|i: int| 0 <= i < "color"@.len() ==> spec_bare(#[trigger] "color"@[i]));
    }
    assert(spec_wf_word("country_type"@)) by {
        assert(forall|i: int|
            0 <= i < "country_type"@.len() ==> spec_bare(#[trigger] "country_type"@[i]));
    }
    assert(spec_wf_word("tier"@)) by {
        assert(forall|i: int| 0 <= i < "tier"@.len() ==> spec_bare(#[trigger] "tier"@[i]));
    }
    assert(spec_wf_word("cultures"@)) by {
        assert(forall|i: int| 0 <= i < "cultures"@.len() ==> spec_bare(#[trigger] "cultures"@[i]));
    }
    assert(spec_wf_word("capital"@)) by {
        assert(forall|i: int| 0 <= i < "capital"@.len() ==> spec_bare(#[trigger] "capital"@[i]));
    }
    assert(spec_wf_word("religion"@)) by {
        assert(forall|i: int| 0 <= i < "religion"@.len() ==> spec_bare(#[trigger] "religion"@[i]));
    }
    let ts = crate::country_tier::spec_tier_str(e.tier);
    let st0 = spec_init();
    let root0 = FrameV { header: None, key: None, elems: Seq::empty() };
    assert(spec_resolve(st0) == Some(seq![root0]));
    lemma_run_append(st0, cd_seg_a(e), cd_seg_b(e) + (cd_seg_c(e) + (cd_seg_d(e) + (cd_seg_f(e)
        + (cd_seg_g(e) + cd_seg_h(e))))));
    lemma_open_block(st0, e.tag);
    let sa = spec_with_key(seq![root0], e.tag).push(
        FrameV { header: None, key: None, elems: Seq::empty() },
    );
    let sta = StateV::Run { stack: sa, mode: ModeV::Idle, comment: false };
    assert(spec_run(st0, cd_seg_a(e)) == sta);
    lemma_run_append(sta, cd_seg_b(e), cd_seg_c(e) + (cd_seg_d(e) + (cd_seg_f(e) + (cd_seg_g(e)
        + cd_seg_h(e)))));
    assert(spec_resolve(sta) == Some(sa));
    lemma_color_field_line(sta, "color"@, e.color);
    let sb = spec_with_field(sa, "color"@, spec_color_value(e.color));
    let stb = StateV::Run { stack: sb, mode: ModeV::Idle, comment: false };
    assert(spec_run(sta, cd_seg_b(e)) == stb);
    lemma_run_append(stb, cd_seg_c(e), cd_seg_d(e) + (cd_seg_f(e) + (cd_seg_g(e) + cd_seg_h(e))));
    lemma_scalar_field_line(stb, "country_type"@, e.country_type);
    let stc = StateV::Run {
        stack: spec_with_key(sb, "country_type"@),
        mode: ModeV::Pending(e.country_type),
        comment: false,
    };
    assert(spec_run(stb, cd_seg_c(e)) == stc);
    lemma_run_append(stc, cd_seg_d(e), cd_seg_f(e) + (cd_seg_g(e) + cd_seg_h(e)));
    lemma_resolve_with_key(sb, "country_type"@, e.country_type);
    let sc = spec_with_field(sb, "country_type"@, ValueV::Scalar(e.country_type));
    assert(spec_resolve(stc) is Some && spec_resolve(stc)->0 == sc) by {
        assert(spec_commit(spec_with_key(sb, "country_type"@), ValueV::Scalar(e.country_type))->0
            =~~= sc);
    }
    lemma_tier_wf(e.tier);
    lemma_scalar_field_line(stc, "tier"@, ts);
    let std1 = StateV::Run {
        stack: spec_with_key(sc, "tier"@),
        mode: ModeV::Pending(ts),
        comment: false,
    };
    assert(spec_run(stc, cd_seg_d(e)) == std1);
    lemma_run_append(std1, cd_seg_f(e), cd_seg_g(e) + cd_seg_h(e));
    lemma_resolve_with_key(sc, "tier"@, ts);
    let sd = spec_with_field(sc, "tier"@, ValueV::Scalar(ts));
    assert(spec_resolve(std1) is Some && spec_resolve(std1)->0 == sd) by {
        assert(spec_commit(spec_with_key(sc, "tier"@), ValueV::Scalar(ts))->0 =~~= sd);
    }
    lemma_array_field_line(std1, "cultures"@, e.cultures);
    let se = spec_with_field(sd, "cultures"@, spec_arr_value(e.cultures));
    let ste = StateV::Run { stack: se, mode: ModeV::Idle, comment: false };
    assert(spec_run(std1, cd_seg_f(e)) == ste);
    lemma_run_append(ste, cd_seg_g(e), cd_seg_h(e));
    let stg: StateV = match e.capital {
        Some(cap) => StateV::Run {
            stack: spec_with_key(se, "capital"@),
            mode: ModeV::Pending(cap),
            comment: false,
        },
        None => ste,
    };
    let sf: Seq<FrameV> = match e.capital {
        Some(cap) => spec_with_field(se, "capital"@, ValueV::Scalar(cap)),
        None => se,
    };
    match e.capital {
        Some(cap) => {
            lemma_scalar_field_line(ste, "capital"@, cap);
            assert(spec_run(ste, cd_seg_g(e)) == stg);
            lemma_resolve_with_key(se, "capital"@, cap);
            assert(spec_resolve(stg) is Some && spec_resolve(stg)->0 == sf) by {
                assert(spec_commit(spec_with_key(se, "capital"@), ValueV::Scalar(cap))->0
                    =~~= sf);
            }
        },
        None => {
            assert(forall|i: int|
                0 <= i < " No Capital"@.len() ==> #[trigger] " No Capital"@[i] != '\n');
            lemma_comment_line(ste, " No Capital"@);
            assert(spec_run(ste, cd_seg_g(e)) == stg);
        },
    }
    let sth: StateV = match e.religion {
        Some(rel) => StateV::Run {
            stack: spec_with_key(sf, "religion"@),
            mode: ModeV::Pending(rel),
            comment: false,
        },
        None => stg,
    };
    let sg: Seq<FrameV> = match e.religion {
        Some(rel) => spec_with_field(sf, "religion"@, ValueV::Scalar(rel)),
        None => sf,
    };
    match e.religion {
        Some(rel) => {
            lemma_scalar_field_line(stg, "religion"@, rel);
            assert(spec_run(stg, cd_seg_h(e)) == sth);
            lemma_resolve_with_key(sf, "religion"@, rel);
            assert(spec_resolve(sth) is Some && spec_resolve(sth)->0 == sg) by {
                assert(spec_commit(spec_with_key(sf, "religion"@), ValueV::Scalar(rel))->0
                    =~~= sg);
            }
        },
        None => {
            assert(forall|i: int|
                0 <= i < " No Religion"@.len() ==> #[trigger] " No Religion"@[i] != '\n');
            lemma_comment_line(stg, " No Religion"@);
            assert(spec_run(stg, cd_seg_h(e)) == sth);
            assert(spec_resolve(sth) is Some && spec_resolve(sth)->0 == sg);
        },
    }
    assert(sg == cd_mid_stack(e));
    assert(spec_run(st0, cd_seg_a(e) + (cd_seg_b(e) + (cd_seg_c(e) + (cd_seg_d(e) + (cd_seg_f(e)
        + (cd_seg_g(e) + cd_seg_h(e))))))) == sth);
}

/// Walking the parser over a rendered country definition: the file
/// frame ends up holding exactly one root field, the tag mapped to the
/// object of rendered fields.
#[verifier::rlimit(100)]
proof fn lemma_cd_walk(e: crate::country_definition::CountryDefinitionV)
    requires
        spec_wf_cd(e),
    ensures
        spec_run(spec_init(), crate::country_definition::spec_cd_to_pdx(e)) == (StateV::Run {
            stack: seq![
                FrameV {
                    header: None,
                    key: None,
                    elems: seq![
                        ElemV::Field(e.tag, ValueV::Object(spec_cd_field_list(e))),
                    ],
                },
            ],
            mode: ModeV::Idle,
            comment: false,
        }),
{
    lemma_cd_text_split(e);
    lemma_cd_walk_lines(e);
    let st0 = spec_init();
    let lines = cd_seg_a(e) + (cd_seg_b(e) + (cd_seg_c(e) + (cd_seg_d(e) + (cd_seg_f(e) + (
    cd_seg_g(e) + cd_seg_h(e))))));
    let text = crate::country_definition::spec_cd_to_pdx(e);
    assert(text =~= lines + seq!['}']);
    lemma_run_append(st0, lines, seq!['}']);
    let sth = spec_run(st0, lines);
    let sg = cd_mid_stack(e);
    let root0 = FrameV { header: None, key: None, elems: Seq::empty() };
    assert(sg.len() == 2);
    assert(sg.last().key is None && sg.last().header is None);
    let flel = spec_cd_field_list(e).map_values(|fv: FieldV| ElemV::Field(fv.key, fv.val));
    assert(sg.last().elems =~= flel);
    assert(spec_group_value(sg.last().elems) == Some(
        ValueV::Object(spec_cd_field_list(e)),
    )) by {
        let fl = sg.last().elems;
        assert(fl.len() > 0);
        assert forall|i: int| 0 <= i < fl.len() implies fl[i] is Field by {
            assert(fl[i] == ElemV::Field(
                spec_cd_field_list(e)[i].key,
                spec_cd_field_list(e)[i].val,
            ));
        }
        assert(spec_group_value(fl) is Some);
        assert(spec_group_value(fl)->0->Object_0 =~~= spec_cd_field_list(e)) by {
            let got = spec_group_value(fl)->0->Object_0;
            assert(got.len() == fl.len());
            assert forall|i: int| 0 <= i < fl.len() implies got[i] == spec_cd_field_list(e)[i] by {
                assert(fl[i] == ElemV::Field(
                    spec_cd_field_list(e)[i].key,
                    spec_cd_field_list(e)[i].val,
                ));
                assert(got[i] == (FieldV { key: fl[i]->Field_0, val: fl[i]->Field_1 }));
            }
        }
    }
    let rootf = FrameV {
        header: None,
        key: None,
        elems: seq![ElemV::Field(e.tag, ValueV::Object(spec_cd_field_list(e)))],
    };
    lemma_close_block(sth);
    assert(spec_close(sg) is Some && spec_close(sg)->0 =~~= seq![rootf]) by {
        assert(sg.drop_last() =~= spec_with_key(seq![root0], e.tag));
        assert(sg.drop_last().last().key == Some(e.tag));
        assert(spec_commit(sg.drop_last(), ValueV::Object(spec_cd_field_list(e))) is Some);
    }
    assert(spec_run(sth, seq!['}']) == (StateV::Run {
        stack: seq![rootf],
        mode: ModeV::Idle,
        comment: false,
    }));
}

/// A tier spelling is a bare token.
proof fn lemma_tier_wf(t: crate::country_tier::CountryTier)
    ensures
        spec_wf_word(crate::country_tier::spec_tier_str(t)),
{
    reveal_strlit("city_state");
    reveal_strlit("principality");
    reveal_strlit("grand_principality");
    reveal_strlit("kingdom");
    reveal_strlit("empire");
    reveal_strlit("hegemony");
    let s = crate::country_tier::spec_tier_str(t);
    assert(s.len() > 0);
    assert forall|i: int| 0 <= i < s.len() implies spec_bare(s[i]) by {
    }
}

/// Law: parsing the canonical serialization of a valid country
/// definition yields exactly that entity, with no diagnostics. The
/// entity is valid when its texts can stand as bare tokens and its
/// hue/saturation/value components, if any, are fractional numbers.
pub proof fn lemma_country_definition_round_trip(e: crate::country_definition::CountryDefinitionV)
    requires
        spec_wf_cd(e),
    ensures
        crate::country_definition::spec_parse_country_definitions(
            crate::country_definition::spec_cd_to_pdx(e),
        ) == Some((seq![e], Seq::<crate::logger::DiagV>::empty())),
{
    lemma_cd_walk(e);
    let fl = spec_cd_field_list(e);
    let rootf = FrameV {
        header: None,
        key: None,
        elems: seq![ElemV::Field(e.tag, ValueV::Object(fl))],
    };
    let fin = StateV::Run { stack: seq![rootf], mode: ModeV::Idle, comment: false };
    let pairs = crate::parser::spec_finish(fin);
    assert(pairs is Some && pairs->0 =~~= seq![(e.tag, ValueV::Object(fl))]) by {
        assert(rootf.elems[0] is Field);
        assert(forall|i: int| 0 <= i < rootf.elems.len() ==> rootf.elems[i] is Field);
        assert(crate::parser::spec_root_fields(rootf.elems) is Some);
        let got = crate::parser::spec_root_fields(rootf.elems)->0;
        assert(got.len() == 1);
        assert(got[0] == (e.tag, ValueV::Object(fl)));
    }
    let p = seq![(e.tag, ValueV::Object(fl))];
    lemma_cd_build_fields(e);
    assert(crate::country_definition::spec_cd_drive(p) == Some(
        (seq![e], Seq::<crate::logger::DiagV>::empty()),
    )) by {
        assert(p.drop_last() =~= Seq::<(Seq<char>, ValueV)>::empty());
        assert(p.last() == (e.tag, ValueV::Object(fl)));
        assert(crate::country_definition::spec_cd_drive(
            Seq::<(Seq<char>, ValueV)>::empty(),
        ) == Some(
            (
                Seq::<crate::country_definition::CountryDefinitionV>::empty(),
                Seq::<crate::logger::DiagV>::empty(),
            ),
        ));
        assert(crate::country_definition::spec_obj_fields(ValueV::Object(fl)) == Some(fl));
        assert(Seq::<crate::country_definition::CountryDefinitionV>::empty().push(e) =~= seq![e]);
        assert(Seq::<crate::logger::DiagV>::empty() + Seq::<crate::logger::DiagV>::empty()
            =~= Seq::<crate::logger::DiagV>::empty());
    }
    assert(crate::parser::spec_parse_text(crate::country_definition::spec_cd_to_pdx(e)) == Some(
        p,
    )) by {
        assert(crate::parser::spec_finish(fin)->0 =~~= p);
    }
}

/// Law: a plain byte triple `{ r g b }` reads as exactly RGB(r, g, b).
pub proof fn lemma_rgb_triple_read(r: u8, g: u8, b: u8)
    ensures
        crate::value_reader::spec_read_color(
            ValueV::Array(
                seq![
                    ValueV::Scalar(crate::text::spec_dec(r as nat)),
                    ValueV::Scalar(crate::text::spec_dec(g as nat)),
                    ValueV::Scalar(crate::text::spec_dec(b as nat)),
                ],
            ),
        ) == Some(crate::color::ColorV::Rgb(r, g, b)),
{
    lemma_dec_parse(r as nat);
    lemma_dec_parse(g as nat);
    lemma_dec_parse(b as nat);
    let items = seq![
        ValueV::Scalar(crate::text::spec_dec(r as nat)),
        ValueV::Scalar(crate::text::spec_dec(g as nat)),
        ValueV::Scalar(crate::text::spec_dec(b as nat)),
    ];
    assert(items.len() == 3);
    assert(forall|i: int| 0 <= i < items.len() ==> items[i] is Scalar);
    assert(crate::value_reader::spec_sat_byte(crate::text::spec_dec(r as nat)) == r);
    assert(crate::value_reader::spec_sat_byte(crate::text::spec_dec(g as nat)) == g);
    assert(crate::value_reader::spec_sat_byte(crate::text::spec_dec(b as nat)) == b);
}

/// Law: a color under an unrecognized format tag is a coercion
/// failure, never a crash: the reader returns nothing for it.
pub proof fn lemma_unknown_tag_fails(tag: Seq<char>, inner: ValueV)
    requires
        tag != "hsv"@,
        tag != "rgb"@,
        tag != "hsv360"@,
    ensures
        crate::value_reader::spec_read_color(
            ValueV::Array(seq![ValueV::Scalar(tag), inner]),
        ) is None,
{
    let items = seq![ValueV::Scalar(tag), inner];
    assert(items.len() == 2);
}

/// The value a rendered duplicate-key list reads back in as.
pub open spec fn spec_eth_value(ws: Seq<Seq<char>>) -> ValueV {
    if ws.len() == 0 {
        ValueV::Absent
    } else {
        ValueV::Object(ws.map_values(|w: Seq<char>| (FieldV { key: "1"@, val: ValueV::Scalar(w) })))
    }
}

/// Law: the duplicate-key list idiom reads back as the list itself, in
/// encounter order.
pub proof fn lemma_eth_read(ws: Seq<Seq<char>>)
    ensures
        crate::value_reader::spec_read_ethnicities(spec_eth_value(ws)) == Some(ws),
{
    if ws.len() == 0 {
        assert(ws =~= Seq::<Seq<char>>::empty());
    } else {
        lemma_eth_scalar_values(ws);
        let fields = ws.map_values(|w: Seq<char>| (FieldV { key: "1"@, val: ValueV::Scalar(w) }));
        assert(crate::value_reader::spec_scalar_values(fields) =~= ws);
    }
}

/// The scalar values of a rendered duplicate-key list are the list.
proof fn lemma_eth_scalar_values(ws: Seq<Seq<char>>)
    ensures
        crate::value_reader::spec_scalar_values(
            ws.map_values(|w: Seq<char>| (FieldV { key: "1"@, val: ValueV::Scalar(w) })),
        ) =~= ws,
    decreases ws.len(),
{
    let fields = ws.map_values(|w: Seq<char>| (FieldV { key: "1"@, val: ValueV::Scalar(w) }));
    if ws.len() == 0 {
        assert(fields =~= Seq::<FieldV>::empty());
    } else {
        lemma_eth_scalar_values(ws.drop_last());
        let dfields = ws.drop_last().map_values(
            |w: Seq<char>| (FieldV { key: "1"@, val: ValueV::Scalar(w) }),
        );
        assert(fields.drop_last() =~= dfields) by {
            assert(fields.drop_last().len() == dfields.len());
            assert(forall|i: int|
                0 <= i < dfields.len() ==> fields.drop_last()[i] == dfields[i]);
        }
        assert(fields.last() == (FieldV { key: "1"@, val: ValueV::Scalar(ws.last()) }));
        assert(crate::value_reader::spec_scalar_values(fields)
            == crate::value_reader::spec_scalar_values(fields.drop_last()).push(ws.last()));
    }
}

/// Applying a concatenation of culture field lists applies each in turn.
proof fn lemma_culture_apply_fields_append(
    b: crate::culture::CultureBuilderV,
    f1: Seq<FieldV>,
    f2: Seq<FieldV>,
)
    ensures
        crate::culture::spec_culture_apply_fields(b, f1 + f2)
            == crate::culture::spec_culture_apply_fields(
            crate::culture::spec_culture_apply_fields(b, f1),
            f2,
        ),
    decreases f2.len(),
{
    if f2.len() == 0 {
        assert(f1 + f2 =~= f1);
    } else {
        assert((f1 + f2).drop_last() =~= f1 + f2.drop_last());
        assert((f1 + f2).last() == f2.last());
        lemma_culture_apply_fields_append(b, f1, f2.drop_last());
    }
}

/// Applying a single culture field unfolds to one application.
proof fn lemma_culture_apply_one(b: crate::culture::CultureBuilderV, f: FieldV)
    ensures
        crate::culture::spec_culture_apply_fields(b, seq![f])
            == crate::culture::spec_culture_apply(b, f.key, f.val).0,
{
    let s = seq![f];
    assert(s.drop_last() =~= Seq::<FieldV>::empty());
    assert(s.last() == f);
    assert(crate::culture::spec_culture_apply_fields(b, Seq::<FieldV>::empty()) == b);
}

/// A field list of at most one element, for an optional scalar field.
pub open spec fn opt_scalar_field(key: Seq<char>, o: Option<Seq<char>>) -> Seq<FieldV> {
    match o {
        Some(v) => seq![FieldV { key, val: ValueV::Scalar(v) }],
        None => Seq::<FieldV>::empty(),
    }
}

/// A field list of at most one element, for an optional word-list
/// field.
pub open spec fn opt_list_field(key: Seq<char>, o: Option<Seq<Seq<char>>>) -> Seq<FieldV> {
    match o {
        Some(ws) => seq![FieldV { key, val: spec_arr_value(ws) }],
        None => Seq::<FieldV>::empty(),
    }
}

/// The fields of a culture's canonical rendering, in the order the
/// serializer emits them.
pub open spec fn spec_culture_field_list(e: crate::culture::CultureV) -> Seq<FieldV> {
    (match e.color {
        Some(c) => seq![FieldV { key: "color"@, val: spec_color_value(c) }],
        None => Seq::<FieldV>::empty(),
    }) + opt_scalar_field("religion"@, e.religion) + seq![
        FieldV { key: "traits"@, val: spec_arr_value(e.traits) },
    ] + opt_list_field("male_common_first_names"@, e.male_common_first_names) + opt_list_field(
        "female_common_first_names"@,
        e.female_common_first_names,
    ) + opt_list_field("noble_last_names"@, e.noble_last_names) + opt_list_field(
        "common_last_names"@,
        e.common_last_names,
    ) + opt_list_field("male_regal_first_names"@, e.male_regal_first_names) + opt_list_field(
        "female_regal_first_names"@,
        e.female_regal_first_names,
    ) + opt_list_field("regal_last_names"@, e.regal_last_names) + seq![
        FieldV { key: "ethnicities"@, val: spec_eth_value(e.ethnicities) },
        FieldV { key: "graphics"@, val: ValueV::Scalar(e.graphics) },
    ]
}

/// A valid culture: every text a bare token, the color (if any) valid.
pub open spec fn spec_wf_culture(e: crate::culture::CultureV) -> bool {
    spec_wf_word(e.string_id) && spec_wf_words(e.traits) && spec_wf_words(e.ethnicities)
        && spec_wf_word(e.graphics) && (match e.color {
        Some(c) => spec_wf_color(c),
        None => true,
    }) && (match e.religion {
        Some(r) => spec_wf_word(r),
        None => true,
    }) && (match e.male_common_first_names {
        Some(ws) => spec_wf_words(ws),
        None => true,
    }) && (match e.female_common_first_names {
        Some(ws) => spec_wf_words(ws),
        None => true,
    }) && (match e.common_last_names {
        Some(ws) => spec_wf_words(ws),
        None => true,
    }) && (match e.noble_last_names {
        Some(ws) => spec_wf_words(ws),
        None => true,
    }) && (match e.male_regal_first_names {
        Some(ws) => spec_wf_words(ws),
        None => true,
    }) && (match e.female_regal_first_names {
        Some(ws) => spec_wf_words(ws),
        None => true,
    }) && (match e.regal_last_names {
        Some(ws) => spec_wf_words(ws),
        None => true,
    })
}

/// Law: building back the rendered fields of a valid culture yields the
/// same culture, with no diagnostics.
#[verifier::rlimit(100)]
pub proof fn lemma_culture_build_fields(e: crate::culture::CultureV)
    requires
        spec_wf_culture(e),
    ensures
        crate::culture::spec_culture_entity(e.string_id, spec_culture_field_list(e)) == (
            Some(e),
            Seq::<crate::logger::DiagV>::empty(),
        ),
{
    reveal_strlit("string_id");
    reveal_strlit("color");
    reveal_strlit("religion");
    reveal_strlit("traits");
    reveal_strlit("male_common_first_names");
    reveal_strlit("female_common_first_names");
    reveal_strlit("common_last_names");
    reveal_strlit("noble_last_names");
    reveal_strlit("male_regal_first_names");
    reveal_strlit("female_regal_first_names");
    reveal_strlit("regal_last_names");
    reveal_strlit("ethnicities");
    reveal_strlit("graphics");
    assert("string_id"@.len() == 9 && "color"@.len() == 5 && "religion"@.len() == 8
        && "traits"@.len() == 6 && "male_common_first_names"@.len() == 23
        && "female_common_first_names"@.len() == 25 && "common_last_names"@.len() == 17
        && "noble_last_names"@.len() == 16 && "male_regal_first_names"@.len() == 22
        && "female_regal_first_names"@.len() == 24 && "regal_last_names"@.len() == 16
        && "ethnicities"@.len() == 11 && "graphics"@.len() == 8);
    assert("graphics"@[0] == 'g' && "religion"@[0] == 'r');
    assert("noble_last_names"@[0] == 'n' && "regal_last_names"@[0] == 'r');
    let b0 = crate::culture::spec_culture_apply_root(
        crate::culture::spec_culture_new(),
        e.string_id,
    );
    let l1 = match e.color {
        Some(c) => seq![FieldV { key: "color"@, val: spec_color_value(c) }],
        None => Seq::<FieldV>::empty(),
    };
    let l2 = opt_scalar_field("religion"@, e.religion);
    let l3 = seq![FieldV { key: "traits"@, val: spec_arr_value(e.traits) }];
    let l4 = opt_list_field("male_common_first_names"@, e.male_common_first_names);
    let l5 = opt_list_field("female_common_first_names"@, e.female_common_first_names);
    let l6 = opt_list_field("noble_last_names"@, e.noble_last_names);
    let l7 = opt_list_field("common_last_names"@, e.common_last_names);
    let l8 = opt_list_field("male_regal_first_names"@, e.male_regal_first_names);
    let l9 = opt_list_field("female_regal_first_names"@, e.female_regal_first_names);
    let l10 = opt_list_field("regal_last_names"@, e.regal_last_names);
    let l11 = seq![FieldV { key: "ethnicities"@, val: spec_eth_value(e.ethnicities) }];
    let l12 = seq![FieldV { key: "graphics"@, val: ValueV::Scalar(e.graphics) }];
    let b1 = crate::culture::spec_culture_apply_fields(b0, l1);
    let b2 = crate::culture::spec_culture_apply_fields(b1, l2);
    let b3 = crate::culture::spec_culture_apply_fields(b2, l3);
    let b4 = crate::culture::spec_culture_apply_fields(b3, l4);
    let b5 = crate::culture::spec_culture_apply_fields(b4, l5);
    let b6 = crate::culture::spec_culture_apply_fields(b5, l6);
    let b7 = crate::culture::spec_culture_apply_fields(b6, l7);
    let b8 = crate::culture::spec_culture_apply_fields(b7, l8);
    let b9 = crate::culture::spec_culture_apply_fields(b8, l9);
    let b10 = crate::culture::spec_culture_apply_fields(b9, l10);
    let b11 = crate::culture::spec_culture_apply_fields(b10, l11);
    let b12 = crate::culture::spec_culture_apply_fields(b11, l12);
    // the fold over the whole list is the staged fold
    let fl = spec_culture_field_list(e);
    assert(fl == ((((((((((l1 + l2) + l3) + l4) + l5) + l6) + l7) + l8) + l9) + l10) + l11)
        + l12);
    lemma_culture_apply_fields_append(b0, l1, l2);
    lemma_culture_apply_fields_append(b0, l1 + l2, l3);
    lemma_culture_apply_fields_append(b0, (l1 + l2) + l3, l4);
    lemma_culture_apply_fields_append(b0, ((l1 + l2) + l3) + l4, l5);
    lemma_culture_apply_fields_append(b0, (((l1 + l2) + l3) + l4) + l5, l6);
    lemma_culture_apply_fields_append(b0, ((((l1 + l2) + l3) + l4) + l5) + l6, l7);
    lemma_culture_apply_fields_append(b0, (((((l1 + l2) + l3) + l4) + l5) + l6) + l7, l8);
    lemma_culture_apply_fields_append(b0, ((((((l1 + l2) + l3) + l4) + l5) + l6) + l7) + l8, l9);
    lemma_culture_apply_fields_append(
        b0,
        (((((((l1 + l2) + l3) + l4) + l5) + l6) + l7) + l8) + l9,
        l10,
    );
    lemma_culture_apply_fields_append(
        b0,
        ((((((((l1 + l2) + l3) + l4) + l5) + l6) + l7) + l8) + l9) + l10,
        l11,
    );
    lemma_culture_apply_fields_append(
        b0,
        (((((((((l1 + l2) + l3) + l4) + l5) + l6) + l7) + l8) + l9) + l10) + l11,
        l12,
    );
    assert(crate::culture::spec_culture_apply_fields(b0, fl) == b12);
    // each staged application
    match e.color {
        Some(c) => {
            lemma_color_read(c);
            lemma_culture_apply_one(b0, FieldV { key: "color"@, val: spec_color_value(c) });
        },
        None => {
            assert(b1 == b0);
        },
    }
    match e.religion {
        Some(r) => {
            lemma_culture_apply_one(b1, FieldV { key: "religion"@, val: ValueV::Scalar(r) });
        },
        None => {
            assert(b2 == b1);
        },
    }
    lemma_arr_read(e.traits);
    lemma_culture_apply_one(b2, FieldV { key: "traits"@, val: spec_arr_value(e.traits) });
    match e.male_common_first_names {
        Some(ws) => {
            lemma_arr_read(ws);
            lemma_culture_apply_one(
                b3,
                FieldV { key: "male_common_first_names"@, val: spec_arr_value(ws) },
            );
        },
        None => {
            assert(b4 == b3);
        },
    }
    match e.female_common_first_names {
        Some(ws) => {
            lemma_arr_read(ws);
            lemma_culture_apply_one(
                b4,
                FieldV { key: "female_common_first_names"@, val: spec_arr_value(ws) },
            );
        },
        None => {
            assert(b5 == b4);
        },
    }
    match e.noble_last_names {
        Some(ws) => {
            lemma_arr_read(ws);
            lemma_culture_apply_one(
                b5,
                FieldV { key: "noble_last_names"@, val: spec_arr_value(ws) },
            );
        },
        None => {
            assert(b6 == b5);
        },
    }
    match e.common_last_names {
        Some(ws) => {
            lemma_arr_read(ws);
            lemma_culture_apply_one(
                b6,
                FieldV { key: "common_last_names"@, val: spec_arr_value(ws) },
            );
        },
        None => {
            assert(b7 == b6);
        },
    }
    match e.male_regal_first_names {
        Some(ws) => {
            lemma_arr_read(ws);
            lemma_culture_apply_one(
                b7,
                FieldV { key: "male_regal_first_names"@, val: spec_arr_value(ws) },
            );
        },
        None => {
            assert(b8 == b7);
        },
    }
    match e.female_regal_first_names {
        Some(ws) => {
            lemma_arr_read(ws);
            lemma_culture_apply_one(
                b8,
                FieldV { key: "female_regal_first_names"@, val: spec_arr_value(ws) },
            );
        },
        None => {
            assert(b9 == b8);
        },
    }
    match e.regal_last_names {
        Some(ws) => {
            lemma_arr_read(ws);
            lemma_culture_apply_one(
                b9,
                FieldV { key: "regal_last_names"@, val: spec_arr_value(ws) },
            );
        },
        None => {
            assert(b10 == b9);
        },
    }
    lemma_eth_read(e.ethnicities);
    lemma_culture_apply_one(
        b10,
        FieldV { key: "ethnicities"@, val: spec_eth_value(e.ethnicities) },
    );
    lemma_culture_apply_one(b11, FieldV { key: "graphics"@, val: ValueV::Scalar(e.graphics) });
    assert(b12.string_id == Some(e.string_id));
    assert(b12.traits == Some(e.traits));
    assert(b12.ethnicities == Some(e.ethnicities));
    assert(b12.graphics == Some(e.graphics));
    assert(b12.color == e.color);
    assert(b12.religion == e.religion);
    assert(b12.male_common_first_names == e.male_common_first_names);
    assert(b12.female_common_first_names == e.female_common_first_names);
    assert(b12.common_last_names == e.common_last_names);
    assert(b12.noble_last_names == e.noble_last_names);
    assert(b12.male_regal_first_names == e.male_regal_first_names);
    assert(b12.female_regal_first_names == e.female_regal_first_names);
    assert(b12.regal_last_names == e.regal_last_names);
    assert(b12.diags =~= Seq::<crate::logger::DiagV>::empty());
    let (res, diags) = crate::culture::spec_culture_build(b12);
    assert(res is Some);
    assert(res->0 =~~= e);
}

/// The stack with more duplicate-key fields on its top frame.
pub open spec fn spec_with_eth_fields(stack: Seq<FrameV>, vs: Seq<Seq<char>>) -> Seq<FrameV> {
    let top = stack.last();
    stack.update(
        stack.len() - 1,
        FrameV {
            header: top.header,
            key: None,
            elems: top.elems + vs.map_values(
                |w: Seq<char>| ElemV::Field("1"@, ValueV::Scalar(w)),
            ),
        },
    )
}

/// Duplicate-key renderings inside an open group become repeated
/// fields under the key `1`.
#[verifier::rlimit(100)]
proof fn lemma_eth_words_into_group(stack: Seq<FrameV>, ws: Seq<Seq<char>>)
    requires
        stack.len() >= 2,
        stack.last().key is None,
        spec_wf_words(ws),
    ensures
        spec_run(
            StateV::Run { stack, mode: ModeV::Idle, comment: false },
            crate::culture::spec_eth_words(ws),
        ) == (if ws.len() == 0 {
            StateV::Run { stack, mode: ModeV::Idle, comment: false }
        } else {
            StateV::Run {
                stack: spec_with_key(spec_with_eth_fields(stack, ws.drop_last()), "1"@),
                mode: ModeV::Word(ws.last()),
                comment: false,
            }
        }),
    decreases ws.len(),
{
    reveal_strlit(" 1 = ");
    reveal_strlit("1");
    assert("1"@ =~= seq!['1']);
    assert(spec_bare('1'));
    let st0 = StateV::Run { stack, mode: ModeV::Idle, comment: false };
    let words = crate::culture::spec_eth_words(ws);
    if ws.len() == 0 {
    } else {
        let dl = ws.drop_last();
        let last = ws.last();
        assert(spec_wf_words(dl));
        lemma_eth_words_into_group(stack, dl);
        assert(" 1 = "@ =~= seq![' ', '1', ' ', '=', ' ']);
        assert(words =~= crate::culture::spec_eth_words(dl) + (seq![' ', '1', ' ', '=', ' ']
            + last));
        lemma_run_append(st0, crate::culture::spec_eth_words(dl), seq![' ', '1', ' ', '=', ' ']
            + last);
        let mid = spec_run(st0, crate::culture::spec_eth_words(dl));
        if dl.len() == 0 {
            assert(mid == st0);
            lemma_run_append(st0, seq![' ', '1', ' ', '=', ' '], last);
            lemma_run3(st0, ' ', '1', ' ');
            let stp = StateV::Run { stack, mode: ModeV::Pending(seq!['1']), comment: false };
            assert(spec_run(st0, seq![' ', '1', ' ', '=', ' ']) == spec_step(
                spec_step(spec_run(st0, seq![' ', '1', ' ']), '='),
                ' ',
            )) by {
                assert(seq![' ', '1', ' ', '=', ' '] =~= seq![' ', '1', ' '] + (seq!['='] + seq![
                    ' ',
                ]));
                lemma_run_append(st0, seq![' ', '1', ' '], seq!['='] + seq![' ']);
                lemma_run_append(spec_run(st0, seq![' ', '1', ' ']), seq!['='], seq![' ']);
                lemma_run1(spec_run(st0, seq![' ', '1', ' ']), '=');
                lemma_run1(spec_step(spec_run(st0, seq![' ', '1', ' ']), '='), ' ');
            }
            let s1 = spec_with_key(stack, "1"@);
            let st2 = StateV::Run { stack: s1, mode: ModeV::Idle, comment: false };
            assert(spec_run(st0, seq![' ', '1', ' ', '=', ' ']) == st2) by {
                assert(spec_run(st0, seq![' ', '1', ' ']) == stp);
                assert(Some(seq!['1']) == Some("1"@));
            }
            lemma_word_from(st2, last);
            assert(spec_with_eth_fields(stack, dl) =~~= stack);
        } else {
            let sp = spec_with_key(spec_with_eth_fields(stack, dl.drop_last()), "1"@);
            let stw = StateV::Run { stack: sp, mode: ModeV::Word(dl.last()), comment: false };
            assert(mid == stw);
            lemma_run_append(stw, seq![' ', '1', ' ', '=', ' '], last);
            lemma_run3(stw, ' ', '1', ' ');
            let s2 = spec_with_eth_fields(stack, dl);
            assert(spec_step(stw, ' ') == StateV::Run {
                stack: sp,
                mode: ModeV::Pending(dl.last()),
                comment: false,
            });
            assert(spec_commit(sp, ValueV::Scalar(dl.last())) is Some);
            assert(spec_commit(sp, ValueV::Scalar(dl.last()))->0 =~~= s2) by {
                let top = stack.last();
                let m1 = dl.drop_last().map_values(
                    |w: Seq<char>| ElemV::Field("1"@, ValueV::Scalar(w)),
                );
                let m2 = dl.map_values(|w: Seq<char>| ElemV::Field("1"@, ValueV::Scalar(w)));
                assert(m2.len() == m1.len() + 1);
                assert forall|i: int| 0 <= i < m1.len() implies m2[i] == m1[i] by {
                    assert(m1[i] == ElemV::Field("1"@, ValueV::Scalar(dl.drop_last()[i])));
                    assert(m2[i] == ElemV::Field("1"@, ValueV::Scalar(dl[i])));
                }
                assert(m2.last() == ElemV::Field("1"@, ValueV::Scalar(dl.last())));
                assert((top.elems + m1).push(ElemV::Field("1"@, ValueV::Scalar(dl.last())))
                    =~= top.elems + m2);
            }
            let stq = spec_run(stw, seq![' ', '1', ' ']);
            assert(stq == StateV::Run {
                stack: spec_commit(sp, ValueV::Scalar(dl.last()))->0,
                mode: ModeV::Pending(seq!['1']),
                comment: false,
            });
            assert(spec_run(stw, seq![' ', '1', ' ', '=', ' ']) == spec_step(
                spec_step(stq, '='),
                ' ',
            )) by {
                assert(seq![' ', '1', ' ', '=', ' '] =~= seq![' ', '1', ' '] + (seq!['='] + seq![
                    ' ',
                ]));
                lemma_run_append(stw, seq![' ', '1', ' '], seq!['='] + seq![' ']);
                lemma_run_append(stq, seq!['='], seq![' ']);
                lemma_run1(stq, '=');
                lemma_run1(spec_step(stq, '='), ' ');
            }
            let s3 = spec_with_key(s2, "1"@);
            let st3 = StateV::Run { stack: s3, mode: ModeV::Idle, comment: false };
            assert(spec_run(stw, seq![' ', '1', ' ', '=', ' ']) == st3) by {
                assert(spec_commit(sp, ValueV::Scalar(dl.last()))->0.last().key is None);
                assert(Some(seq!['1']) == Some("1"@));
                assert(spec_with_key(spec_commit(sp, ValueV::Scalar(dl.last()))->0, "1"@)
                    =~~= s3);
            }
            lemma_word_from(st3, last);
        }
    }
}

/// One `ethnicities = { 1 = a 1 = b }` line: the whole line attaches
/// one duplicate-key object field to the top frame.
#[verifier::rlimit(100)]
proof fn lemma_eth_field_line(st: StateV, ws: Seq<Seq<char>>)
    requires
        spec_between(st),
        spec_resolve(st)->0.len() >= 1,
        spec_resolve(st)->0.last().key is None,
        spec_wf_words(ws),
    ensures
        spec_run(
            st,
            "ethnicities"@ + " = {"@ + crate::culture::spec_eth_words(ws) + " }\n"@,
        ) == (StateV::Run {
            stack: spec_with_field(spec_resolve(st)->0, "ethnicities"@, spec_eth_value(ws)),
            mode: ModeV::Idle,
            comment: false,
        }),
{
    reveal_strlit("ethnicities");
    reveal_strlit(" = {");
    reveal_strlit(" }\n");
    reveal_strlit("1");
    assert(spec_wf_word("ethnicities"@)) by {
        assert(forall|i: int|
            0 <= i < "ethnicities"@.len() ==> spec_bare(#[trigger] "ethnicities"@[i]));
    }
    let s0 = spec_resolve(st)->0;
    let words = crate::culture::spec_eth_words(ws);
    let text = "ethnicities"@ + " = {"@ + words + " }\n"@;
    assert(text =~= "ethnicities"@ + (seq![' ', '=', ' ', '{'] + (words + " }\n"@)));
    lemma_run_append(st, "ethnicities"@, seq![' ', '=', ' ', '{'] + (words + " }\n"@));
    lemma_word_from(st, "ethnicities"@);
    let st1 = StateV::Run { stack: s0, mode: ModeV::Word("ethnicities"@), comment: false };
    lemma_run_append(st1, seq![' ', '=', ' ', '{'], words + " }\n"@);
    lemma_run4(st1, ' ', '=', ' ', '{');
    let s1 = spec_with_key(s0, "ethnicities"@);
    let s2 = s1.push(FrameV { header: None, key: None, elems: Seq::empty() });
    let st2 = StateV::Run { stack: s2, mode: ModeV::Idle, comment: false };
    assert(spec_run(st1, seq![' ', '=', ' ', '{']) == st2);
    lemma_run_append(st2, words, " }\n"@);
    assert(s2.last().key is None);
    lemma_eth_words_into_group(s2, ws);
    let stw = spec_run(st2, words);
    assert(" }\n"@ =~= seq![' ', '}', '\n']);
    lemma_run3(stw, ' ', '}', '\n');
    let target = StateV::Run {
        stack: spec_with_field(s0, "ethnicities"@, spec_eth_value(ws)),
        mode: ModeV::Idle,
        comment: false,
    };
    if ws.len() == 0 {
        assert(stw == st2);
        assert(spec_step(st2, ' ') == st2);
        assert(spec_step(st2, '}') == target) by {
            assert(spec_group_value(s2.last().elems) == Some(ValueV::Absent));
            assert(s2.drop_last() =~= s1);
            assert(spec_commit(s1, ValueV::Absent) is Some);
            assert(spec_commit(s1, ValueV::Absent)->0 =~~= spec_with_field(
                s0,
                "ethnicities"@,
                ValueV::Absent,
            ));
        }
        assert(spec_step(target, '\n') == target);
    } else {
        let s3 = spec_with_key(spec_with_eth_fields(s2, ws.drop_last()), "1"@);
        assert(stw == StateV::Run { stack: s3, mode: ModeV::Word(ws.last()), comment: false });
        let stp = StateV::Run { stack: s3, mode: ModeV::Pending(ws.last()), comment: false };
        assert(spec_step(stw, ' ') == stp);
        let m2 = ws.map_values(|w: Seq<char>| ElemV::Field("1"@, ValueV::Scalar(w)));
        assert(spec_commit(s3, ValueV::Scalar(ws.last())) is Some);
        let s4 = spec_commit(s3, ValueV::Scalar(ws.last()))->0;
        assert(s4.last().elems =~= m2) by {
            let m1 = ws.drop_last().map_values(
                |w: Seq<char>| ElemV::Field("1"@, ValueV::Scalar(w)),
            );
            assert(m2.len() == m1.len() + 1);
            assert forall|i: int| 0 <= i < m1.len() implies m2[i] == m1[i] by {
                assert(m1[i] == ElemV::Field("1"@, ValueV::Scalar(ws.drop_last()[i])));
                assert(m2[i] == ElemV::Field("1"@, ValueV::Scalar(ws[i])));
            }
            assert(m2.last() == ElemV::Field("1"@, ValueV::Scalar(ws.last())));
            assert(m2 =~= m1.push(ElemV::Field("1"@, ValueV::Scalar(ws.last()))));
            assert(s3.last().elems =~= Seq::<ElemV>::empty() + m1);
            assert(Seq::<ElemV>::empty() + m1 =~= m1);
        }
        assert(spec_step(stp, '}') == target) by {
            let gv = spec_group_value(s4.last().elems);
            assert(s4.last().elems[0] is Field);
            assert(!(s4.last().elems[0] is Lone));
            assert(forall|i: int| 0 <= i < m2.len() ==> m2[i] is Field);
            assert(gv is Some && gv->0 is Object);
            let efl = ws.map_values(
                |w: Seq<char>| (FieldV { key: "1"@, val: ValueV::Scalar(w) }),
            );
            assert(gv->0->Object_0 =~~= efl) by {
                let got = gv->0->Object_0;
                assert(got.len() == efl.len());
                assert forall|i: int| 0 <= i < efl.len() implies got[i] == efl[i] by {
                    assert(m2[i] == ElemV::Field("1"@, ValueV::Scalar(ws[i])));
                    assert(got[i] == (FieldV {
                        key: m2[i]->Field_0,
                        val: m2[i]->Field_1,
                    }));
                    assert(efl[i] == (FieldV { key: "1"@, val: ValueV::Scalar(ws[i]) }));
                }
            }
            assert(s4.last().key is None);
            assert(s4.last().header is None);
            assert(s4.len() == s2.len());
            assert(s4.drop_last() =~= s1);
            assert(spec_close(s4) is Some);
            assert(spec_close(s4)->0 =~~= spec_with_field(
                s0,
                "ethnicities"@,
                spec_eth_value(ws),
            ));
        }
        assert(spec_step(target, '\n') == target);
    }
}

/// One optional word-list line: present, it attaches the field; absent,
/// its comment placeholder leaves the state untouched.
proof fn lemma_opt_words_line(
    st: StateV,
    name: Seq<char>,
    body: Seq<char>,
    o: Option<Seq<Seq<char>>>,
)
    requires
        spec_between(st),
        spec_resolve(st)->0.len() >= 1,
        spec_resolve(st)->0.last().key is None,
        spec_wf_word(name),
        forall|i: int| 0 <= i < body.len() ==> body[i] != '\n',
        match o {
            Some(ws) => spec_wf_words(ws),
            None => true,
        },
    ensures
        spec_run(st, crate::culture::spec_opt_list_line(name, body, o)) == (match o {
            Some(ws) => StateV::Run {
                stack: spec_with_field(spec_resolve(st)->0, name, spec_arr_value(ws)),
                mode: ModeV::Idle,
                comment: false,
            },
            None => st,
        }),
{
    match o {
        Some(ws) => {
            lemma_array_field_line(st, name, ws);
        },
        None => {
            lemma_comment_line(st, body);
        },
    }
}

/// The entity frame's contents after every line of a rendered culture.
pub open spec fn cu_mid_stack(e: crate::culture::CultureV) -> Seq<FrameV> {
    let root0 = FrameV { header: None, key: None, elems: Seq::empty() };
    let sa = spec_with_key(seq![root0], e.string_id).push(
        FrameV { header: None, key: None, elems: Seq::empty() },
    );
    let s1 = match e.color {
        Some(c) => spec_with_field(sa, "color"@, spec_color_value(c)),
        None => sa,
    };
    let s2 = match e.religion {
        Some(rl) => spec_with_field(s1, "religion"@, ValueV::Scalar(rl)),
        None => s1,
    };
    let s3 = spec_with_field(s2, "traits"@, spec_arr_value(e.traits));
    let s4 = match e.male_common_first_names {
        Some(ws) => spec_with_field(s3, "male_common_first_names"@, spec_arr_value(ws)),
        None => s3,
    };
    let s5 = match e.female_common_first_names {
        Some(ws) => spec_with_field(s4, "female_common_first_names"@, spec_arr_value(ws)),
        None => s4,
    };
    let s6 = match e.noble_last_names {
        Some(ws) => spec_with_field(s5, "noble_last_names"@, spec_arr_value(ws)),
        None => s5,
    };
    let s7 = match e.common_last_names {
        Some(ws) => spec_with_field(s6, "common_last_names"@, spec_arr_value(ws)),
        None => s6,
    };
    let s8 = match e.male_regal_first_names {
        Some(ws) => spec_with_field(s7, "male_regal_first_names"@, spec_arr_value(ws)),
        None => s7,
    };
    let s9 = match e.female_regal_first_names {
        Some(ws) => spec_with_field(s8, "female_regal_first_names"@, spec_arr_value(ws)),
        None => s8,
    };
    let s10 = match e.regal_last_names {
        Some(ws) => spec_with_field(s9, "regal_last_names"@, spec_arr_value(ws)),
        None => s9,
    };
    let s11 = spec_with_field(s10, "ethnicities"@, spec_eth_value(e.ethnicities));
    spec_with_field(s11, "graphics"@, ValueV::Scalar(e.graphics))
}

/// The lines of a rendered culture, before the closing brace.
pub open spec fn cu_lines(e: crate::culture::CultureV) -> Seq<char> {
    let sa = e.string_id + " = {\n"@;
    let sc = match e.color {
        Some(c) => "color"@ + " = "@ + crate::color::spec_color_text(c) + "\n"@,
        None => seq!['#'] + " No Color"@ + seq!['\n'],
    };
    let sr = match e.religion {
        Some(rl) => "religion"@ + " = "@ + rl + "\n"@,
        None => seq!['#'] + " No Religion"@ + seq!['\n'],
    };
    let stt = "traits"@ + " = {"@ + crate::country_definition::spec_words(e.traits) + " }\n"@;
    let s4t = crate::culture::spec_opt_list_line(
        "male_common_first_names"@,
        " No Male Common First Names"@,
        e.male_common_first_names,
    );
    let s5t = crate::culture::spec_opt_list_line(
        "female_common_first_names"@,
        " No Female Common First Names"@,
        e.female_common_first_names,
    );
    let s6t = crate::culture::spec_opt_list_line(
        "noble_last_names"@,
        " No Noble Last Names"@,
        e.noble_last_names,
    );
    let s7t = crate::culture::spec_opt_list_line(
        "common_last_names"@,
        " No Common Last Names"@,
        e.common_last_names,
    );
    let s8t = crate::culture::spec_opt_list_line(
        "male_regal_first_names"@,
        " No Male Regal First Names"@,
        e.male_regal_first_names,
    );
    let s9t = crate::culture::spec_opt_list_line(
        "female_regal_first_names"@,
        " No Female Regal First Names"@,
        e.female_regal_first_names,
    );
    let s10t = crate::culture::spec_opt_list_line(
        "regal_last_names"@,
        " No Regal Last Names"@,
        e.regal_last_names,
    );
    let set = "ethnicities"@ + " = {"@ + crate::culture::spec_eth_words(e.ethnicities)
        + " }\n"@;
    let sgt = "graphics"@ + " = "@ + e.graphics + "\n"@;
    sa + (sc + (sr + (stt + (s4t + (s5t + (s6t + (s7t + (s8t + (s9t + (s10t + (set + sgt)))))))))))
}

/// Concatenation of texts is associative.
proof fn lemma_seq_assoc(a: Seq<char>, b: Seq<char>, c: Seq<char>)
    ensures
        (a + b) + c == a + (b + c),
{
    assert((a + b) + c =~= a + (b + c));
}

/// The rendered culture text splits into its lines.
#[verifier::rlimit(100)]
proof fn lemma_culture_text_split(e: crate::culture::CultureV)
    ensures
        crate::culture::spec_culture_to_pdx(e) == cu_lines(e) + seq!['}'],
{
    let sa = e.string_id + " = {\n"@;
    let sc = match e.color {
        Some(c) => "color"@ + " = "@ + crate::color::spec_color_text(c) + "\n"@,
        None => seq!['#'] + " No Color"@ + seq!['\n'],
    };
    let sr = match e.religion {
        Some(rl) => "religion"@ + " = "@ + rl + "\n"@,
        None => seq!['#'] + " No Religion"@ + seq!['\n'],
    };
    let stt = "traits"@ + " = {"@ + crate::country_definition::spec_words(e.traits) + " }\n"@;
    let s4t = crate::culture::spec_opt_list_line(
        "male_common_first_names"@,
        " No Male Common First Names"@,
        e.male_common_first_names,
    );
    let s5t = crate::culture::spec_opt_list_line(
        "female_common_first_names"@,
        " No Female Common First Names"@,
        e.female_common_first_names,
    );
    let s6t = crate::culture::spec_opt_list_line(
        "noble_last_names"@,
        " No Noble Last Names"@,
        e.noble_last_names,
    );
    let s7t = crate::culture::spec_opt_list_line(
        "common_last_names"@,
        " No Common Last Names"@,
        e.common_last_names,
    );
    let s8t = crate::culture::spec_opt_list_line(
        "male_regal_first_names"@,
        " No Male Regal First Names"@,
        e.male_regal_first_names,
    );
    let s9t = crate::culture::spec_opt_list_line(
        "female_regal_first_names"@,
        " No Female Regal First Names"@,
        e.female_regal_first_names,
    );
    let s10t = crate::culture::spec_opt_list_line(
        "regal_last_names"@,
        " No Regal Last Names"@,
        e.regal_last_names,
    );
    let set = "ethnicities"@ + " = {"@ + crate::culture::spec_eth_words(e.ethnicities)
        + " }\n"@;
    let sgt = "graphics"@ + " = "@ + e.graphics + "\n"@;
    let z = seq!['}'];
    let l1 = sa + sc;
    let l2 = l1 + sr;
    let l3 = l2 + stt;
    let l4 = l3 + s4t;
    let l5 = l4 + s5t;
    let l6 = l5 + s6t;
    let l7 = l6 + s7t;
    let l8 = l7 + s8t;
    let l9 = l8 + s9t;
    let l10 = l9 + s10t;
    let l11 = l10 + set;
    let l12 = l11 + sgt;
    assert(crate::culture::spec_culture_to_pdx(e) == l12 + z);
    lemma_seq_assoc(l11, sgt, z);
    lemma_seq_assoc(l10, set, sgt + z);
    lemma_seq_assoc(l9, s10t, set + (sgt + z));
    lemma_seq_assoc(l8, s9t, s10t + (set + (sgt + z)));
    lemma_seq_assoc(l7, s8t, s9t + (s10t + (set + (sgt + z))));
    lemma_seq_assoc(l6, s7t, s8t + (s9t + (s10t + (set + (sgt + z)))));
    lemma_seq_assoc(l5, s6t, s7t + (s8t + (s9t + (s10t + (set + (sgt + z))))));
    lemma_seq_assoc(l4, s5t, s6t + (s7t + (s8t + (s9t + (s10t + (set + (sgt + z)))))));
    lemma_seq_assoc(l3, s4t, s5t + (s6t + (s7t + (s8t + (s9t + (s10t + (set + (sgt + z))))))));
    lemma_seq_assoc(
        l2,
        stt,
        s4t + (s5t + (s6t + (s7t + (s8t + (s9t + (s10t + (set + (sgt + z)))))))),
    );
    lemma_seq_assoc(
        l1,
        sr,
        stt + (s4t + (s5t + (s6t + (s7t + (s8t + (s9t + (s10t + (set + (sgt + z))))))))),
    );
    lemma_seq_assoc(
        sa,
        sc,
        sr + (stt + (s4t + (s5t + (s6t + (s7t + (s8t + (s9t + (s10t + (set + (sgt + z)))))))))),
    );
    assert(cu_lines(e) + z =~= sa + (sc + (sr + (stt + (s4t + (s5t + (s6t + (s7t + (s8t + (s9t
        + (s10t + (set + (sgt + z)))))))))))));
}

/// Walking the identifier, color, religion and traits lines of a
/// rendered culture.
#[verifier::rlimit(100)]
proof fn lemma_culture_walk_head(e: crate::culture::CultureV)
    requires
        spec_wf_culture(e),
    ensures
        ({
            let sa = e.string_id + " = {\n"@;
            let sc = match e.color {
                Some(c) => "color"@ + " = "@ + crate::color::spec_color_text(c) + "\n"@,
                None => seq!['#'] + " No Color"@ + seq!['\n'],
            };
            let sr = match e.religion {
                Some(rl) => "religion"@ + " = "@ + rl + "\n"@,
                None => seq!['#'] + " No Religion"@ + seq!['\n'],
            };
            let stt = "traits"@ + " = {"@ + crate::country_definition::spec_words(e.traits)
                + " }\n"@;
            spec_run(spec_init(), sa + (sc + (sr + stt))) == (StateV::Run {
                stack: cu_mid3_stack(e),
                mode: ModeV::Idle,
                comment: false,
            })
        }),
{
    reveal_strlit("color");
    reveal_strlit("religion");
    reveal_strlit("traits");
    reveal_strlit(" No Color");
    reveal_strlit(" No Religion");
    assert(spec_wf_word("color"@)) by {
        assert(forall|i: int| 0 <= i < "color"@.len() ==> spec_bare(#[trigger] "color"@[i]));
    }
    assert(spec_wf_word("religion"@)) by {
        assert(forall|i: int| 0 <= i < "religion"@.len() ==> spec_bare(#[trigger] "religion"@[i]));
    }
    assert(spec_wf_word("traits"@)) by {
        assert(forall|i: int| 0 <= i < "traits"@.len() ==> spec_bare(#[trigger] "traits"@[i]));
    }
    assert(forall|i: int| 0 <= i < " No Color"@.len() ==> #[trigger] " No Color"@[i] != '\n');
    assert(forall|i: int|
        0 <= i < " No Religion"@.len() ==> #[trigger] " No Religion"@[i] != '\n');
    let sa = e.string_id + " = {\n"@;
    let sc = match e.color {
        Some(c) => "color"@ + " = "@ + crate::color::spec_color_text(c) + "\n"@,
        None => seq!['#'] + " No Color"@ + seq!['\n'],
    };
    let sr = match e.religion {
        Some(rl) => "religion"@ + " = "@ + rl + "\n"@,
        None => seq!['#'] + " No Religion"@ + seq!['\n'],
    };
    let stt = "traits"@ + " = {"@ + crate::country_definition::spec_words(e.traits) + " }\n"@;
    let st0 = spec_init();
    let root0 = FrameV { header: None, key: None, elems: Seq::empty() };
    assert(spec_resolve(st0) == Some(seq![root0]));
    lemma_run_append(st0, sa, sc + (sr + stt));
    lemma_open_block(st0, e.string_id);
    let sas = spec_with_key(seq![root0], e.string_id).push(
        FrameV { header: None, key: None, elems: Seq::empty() },
    );
    let sta = StateV::Run { stack: sas, mode: ModeV::Idle, comment: false };
    assert(spec_run(st0, sa) == sta);
    lemma_run_append(sta, sc, sr + stt);
    let s1 = match e.color {
        Some(c) => spec_with_field(sas, "color"@, spec_color_value(c)),
        None => sas,
    };
    let st1 = StateV::Run { stack: s1, mode: ModeV::Idle, comment: false };
    match e.color {
        Some(c) => {
            lemma_color_field_line(sta, "color"@, c);
            assert(spec_run(sta, sc) == st1);
        },
        None => {
            lemma_comment_line(sta, " No Color"@);
            assert(spec_run(sta, sc) == st1);
        },
    }
    lemma_run_append(st1, sr, stt);
    let st2: StateV = match e.religion {
        Some(rl) => StateV::Run {
            stack: spec_with_key(s1, "religion"@),
            mode: ModeV::Pending(rl),
            comment: false,
        },
        None => st1,
    };
    let s2 = match e.religion {
        Some(rl) => spec_with_field(s1, "religion"@, ValueV::Scalar(rl)),
        None => s1,
    };
    match e.religion {
        Some(rl) => {
            lemma_scalar_field_line(st1, "religion"@, rl);
            assert(spec_run(st1, sr) == st2);
            lemma_resolve_with_key(s1, "religion"@, rl);
            assert(spec_resolve(st2) is Some && spec_resolve(st2)->0 == s2) by {
                assert(spec_commit(spec_with_key(s1, "religion"@), ValueV::Scalar(rl))->0
                    =~~= s2);
            }
        },
        None => {
            lemma_comment_line(st1, " No Religion"@);
            assert(spec_run(st1, sr) == st2);
        },
    }
    lemma_array_field_line(st2, "traits"@, e.traits);
    let s3 = spec_with_field(s2, "traits"@, spec_arr_value(e.traits));
    assert(spec_run(st2, stt) == (StateV::Run { stack: s3, mode: ModeV::Idle, comment: false }));
    assert(s3 == cu_mid3_stack(e));
}

/// Walking the parser over the lines of a rendered culture, up to but
/// not including the closing brace.
#[verifier::rlimit(100)]
proof fn lemma_culture_walk_lines(e: crate::culture::CultureV)
    requires
        spec_wf_culture(e),
    ensures
        spec_between(spec_run(spec_init(), cu_lines(e))),
        spec_resolve(spec_run(spec_init(), cu_lines(e))) == Some(cu_mid_stack(e)),
{
    reveal_strlit("graphics");
    let lines = cu_lines(e);
    let sa = e.string_id + " = {\n"@;
    let sc = match e.color {
        Some(c) => "color"@ + " = "@ + crate::color::spec_color_text(c) + "\n"@,
        None => seq!['#'] + " No Color"@ + seq!['\n'],
    };
    let sr = match e.religion {
        Some(rl) => "religion"@ + " = "@ + rl + "\n"@,
        None => seq!['#'] + " No Religion"@ + seq!['\n'],
    };
    let stt = "traits"@ + " = {"@ + crate::country_definition::spec_words(e.traits) + " }\n"@;
    let s4t = crate::culture::spec_opt_list_line(
        "male_common_first_names"@,
        " No Male Common First Names"@,
        e.male_common_first_names,
    );
    let s5t = crate::culture::spec_opt_list_line(
        "female_common_first_names"@,
        " No Female Common First Names"@,
        e.female_common_first_names,
    );
    let s6t = crate::culture::spec_opt_list_line(
        "noble_last_names"@,
        " No Noble Last Names"@,
        e.noble_last_names,
    );
    let s7t = crate::culture::spec_opt_list_line(
        "common_last_names"@,
        " No Common Last Names"@,
        e.common_last_names,
    );
    let s8t = crate::culture::spec_opt_list_line(
        "male_regal_first_names"@,
        " No Male Regal First Names"@,
        e.male_regal_first_names,
    );
    let s9t = crate::culture::spec_opt_list_line(
        "female_regal_first_names"@,
        " No Female Regal First Names"@,
        e.female_regal_first_names,
    );
    let s10t = crate::culture::spec_opt_list_line(
        "regal_last_names"@,
        " No Regal Last Names"@,
        e.regal_last_names,
    );
    let set = "ethnicities"@ + " = {"@ + crate::culture::spec_eth_words(e.ethnicities)
        + " }\n"@;
    let sgt = "graphics"@ + " = "@ + e.graphics + "\n"@;
    let rest = s4t + (s5t + (s6t + (s7t + (s8t + (s9t + (s10t + (set + sgt)))))));
    assert(lines == sa + (sc + (sr + (stt + rest))));
    assert(lines =~= (sa + (sc + (sr + stt))) + rest);
    let st0 = spec_init();
    lemma_run_append(st0, sa + (sc + (sr + stt)), rest);
    lemma_culture_walk_head(e);
    let st3 = StateV::Run { stack: cu_mid3_stack(e), mode: ModeV::Idle, comment: false };
    assert(spec_run(st0, sa + (sc + (sr + stt))) == st3);
    lemma_culture_walk_tail(e);
    let st12 = StateV::Run {
        stack: spec_with_key(cu_mid11_stack(e), "graphics"@),
        mode: ModeV::Pending(e.graphics),
        comment: false,
    };
    assert(spec_run(st3, rest) == st12);
    lemma_resolve_with_key(cu_mid11_stack(e), "graphics"@, e.graphics);
    assert(spec_resolve(st12) is Some && spec_resolve(st12)->0 == cu_mid_stack(e)) by {
        assert(spec_commit(spec_with_key(cu_mid11_stack(e), "graphics"@), ValueV::Scalar(
            e.graphics,
        ))->0 =~~= cu_mid_stack(e));
    }
    assert(spec_run(st0, lines) == st12);
}

/// The entity frame after the identifier, color, religion and traits
/// lines of a rendered culture.
pub open spec fn cu_mid3_stack(e: crate::culture::CultureV) -> Seq<FrameV> {
    let root0 = FrameV { header: None, key: None, elems: Seq::empty() };
    let sa = spec_with_key(seq![root0], e.string_id).push(
        FrameV { header: None, key: None, elems: Seq::empty() },
    );
    let s1 = match e.color {
        Some(c) => spec_with_field(sa, "color"@, spec_color_value(c)),
        None => sa,
    };
    let s2 = match e.religion {
        Some(rl) => spec_with_field(s1, "religion"@, ValueV::Scalar(rl)),
        None => s1,
    };
    spec_with_field(s2, "traits"@, spec_arr_value(e.traits))
}

/// The entity frame after everything but the graphics line.
pub open spec fn cu_mid11_stack(e: crate::culture::CultureV) -> Seq<FrameV> {
    let s3 = cu_mid3_stack(e);
    let s4 = match e.male_common_first_names {
        Some(ws) => spec_with_field(s3, "male_common_first_names"@, spec_arr_value(ws)),
        None => s3,
    };
    let s5 = match e.female_common_first_names {
        Some(ws) => spec_with_field(s4, "female_common_first_names"@, spec_arr_value(ws)),
        None => s4,
    };
    let s6 = match e.noble_last_names {
        Some(ws) => spec_with_field(s5, "noble_last_names"@, spec_arr_value(ws)),
        None => s5,
    };
    let s7 = match e.common_last_names {
        Some(ws) => spec_with_field(s6, "common_last_names"@, spec_arr_value(ws)),
        None => s6,
    };
    let s8 = match e.male_regal_first_names {
        Some(ws) => spec_with_field(s7, "male_regal_first_names"@, spec_arr_value(ws)),
        None => s7,
    };
    let s9 = match e.female_regal_first_names {
        Some(ws) => spec_with_field(s8, "female_regal_first_names"@, spec_arr_value(ws)),
        None => s8,
    };
    let s10 = match e.regal_last_names {
        Some(ws) => spec_with_field(s9, "regal_last_names"@, spec_arr_value(ws)),
        None => s9,
    };
    spec_with_field(s10, "ethnicities"@, spec_eth_value(e.ethnicities))
}

/// Walking the name-list, ethnicities and graphics lines of a rendered
/// culture.
#[verifier::rlimit(100)]
proof fn lemma_culture_walk_tail(e: crate::culture::CultureV)
    requires
        spec_wf_culture(e),
    ensures
        ({
            let s4t = crate::culture::spec_opt_list_line(
                "male_common_first_names"@,
                " No Male Common First Names"@,
                e.male_common_first_names,
            );
            let s5t = crate::culture::spec_opt_list_line(
                "female_common_first_names"@,
                " No Female Common First Names"@,
                e.female_common_first_names,
            );
            let s6t = crate::culture::spec_opt_list_line(
                "noble_last_names"@,
                " No Noble Last Names"@,
                e.noble_last_names,
            );
            let s7t = crate::culture::spec_opt_list_line(
                "common_last_names"@,
                " No Common Last Names"@,
                e.common_last_names,
            );
            let s8t = crate::culture::spec_opt_list_line(
                "male_regal_first_names"@,
                " No Male Regal First Names"@,
                e.male_regal_first_names,
            );
            let s9t = crate::culture::spec_opt_list_line(
                "female_regal_first_names"@,
                " No Female Regal First Names"@,
                e.female_regal_first_names,
            );
            let s10t = crate::culture::spec_opt_list_line(
                "regal_last_names"@,
                " No Regal Last Names"@,
                e.regal_last_names,
            );
            let set = "ethnicities"@ + " = {"@ + crate::culture::spec_eth_words(e.ethnicities)
                + " }\n"@;
            let sgt = "graphics"@ + " = "@ + e.graphics + "\n"@;
            spec_run(
                StateV::Run { stack: cu_mid3_stack(e), mode: ModeV::Idle, comment: false },
                s4t + (s5t + (s6t + (s7t + (s8t + (s9t + (s10t + (set + sgt))))))),
            ) == (StateV::Run {
                stack: spec_with_key(cu_mid11_stack(e), "graphics"@),
                mode: ModeV::Pending(e.graphics),
                comment: false,
            })
        }),
{
    reveal_strlit("male_common_first_names");
    reveal_strlit("female_common_first_names");
    reveal_strlit("noble_last_names");
    reveal_strlit("common_last_names");
    reveal_strlit("male_regal_first_names");
    reveal_strlit("female_regal_first_names");
    reveal_strlit("regal_last_names");
    reveal_strlit("graphics");
    reveal_strlit(" No Male Common First Names");
    reveal_strlit(" No Female Common First Names");
    reveal_strlit(" No Noble Last Names");
    reveal_strlit(" No Common Last Names");
    reveal_strlit(" No Male Regal First Names");
    reveal_strlit(" No Female Regal First Names");
    reveal_strlit(" No Regal Last Names");
    assert(spec_wf_word("male_common_first_names"@)) by {
        assert(forall|i: int|
            0 <= i < "male_common_first_names"@.len() ==> spec_bare(
                #[trigger] "male_common_first_names"@[i],
            ));
    }
    assert(spec_wf_word("female_common_first_names"@)) by {
        assert(forall|i: int|
            0 <= i < "female_common_first_names"@.len() ==> spec_bare(
                #[trigger] "female_common_first_names"@[i],
            ));
    }
    assert(spec_wf_word("noble_last_names"@)) by {
        assert(forall|i: int|
            0 <= i < "noble_last_names"@.len() ==> spec_bare(
                #[trigger] "noble_last_names"@[i],
            ));
    }
    assert(spec_wf_word("common_last_names"@)) by {
        assert(forall|i: int|
            0 <= i < "common_last_names"@.len() ==> spec_bare(
                #[trigger] "common_last_names"@[i],
            ));
    }
    assert(spec_wf_word("male_regal_first_names"@)) by {
        assert(forall|i: int|
            0 <= i < "male_regal_first_names"@.len() ==> spec_bare(
                #[trigger] "male_regal_first_names"@[i],
            ));
    }
    assert(spec_wf_word("female_regal_first_names"@)) by {
        assert(forall|i: int|
            0 <= i < "female_regal_first_names"@.len() ==> spec_bare(
                #[trigger] "female_regal_first_names"@[i],
            ));
    }
    assert(spec_wf_word("regal_last_names"@)) by {
        assert(forall|i: int|
            0 <= i < "regal_last_names"@.len() ==> spec_bare(
                #[trigger] "regal_last_names"@[i],
            ));
    }
    assert(spec_wf_word("graphics"@)) by {
        assert(forall|i: int| 0 <= i < "graphics"@.len() ==> spec_bare(#[trigger] "graphics"@[i]));
    }
    assert(forall|i: int|
        0 <= i < " No Male Common First Names"@.len()
            ==> #[trigger] " No Male Common First Names"@[i] != '\n');
    assert(forall|i: int|
        0 <= i < " No Female Common First Names"@.len()
            ==> #[trigger] " No Female Common First Names"@[i] != '\n');
    assert(forall|i: int|
        0 <= i < " No Noble Last Names"@.len() ==> #[trigger] " No Noble Last Names"@[i]
            != '\n');
    assert(forall|i: int|
        0 <= i < " No Common Last Names"@.len() ==> #[trigger] " No Common Last Names"@[i]
            != '\n');
    assert(forall|i: int|
        0 <= i < " No Male Regal First Names"@.len()
            ==> #[trigger] " No Male Regal First Names"@[i] != '\n');
    assert(forall|i: int|
        0 <= i < " No Female Regal First Names"@.len()
            ==> #[trigger] " No Female Regal First Names"@[i] != '\n');
    assert(forall|i: int|
        0 <= i < " No Regal Last Names"@.len() ==> #[trigger] " No Regal Last Names"@[i]
            != '\n');
    let s4t = crate::culture::spec_opt_list_line(
        "male_common_first_names"@,
        " No Male Common First Names"@,
        e.male_common_first_names,
    );
    let s5t = crate::culture::spec_opt_list_line(
        "female_common_first_names"@,
        " No Female Common First Names"@,
        e.female_common_first_names,
    );
    let s6t = crate::culture::spec_opt_list_line(
        "noble_last_names"@,
        " No Noble Last Names"@,
        e.noble_last_names,
    );
    let s7t = crate::culture::spec_opt_list_line(
        "common_last_names"@,
        " No Common Last Names"@,
        e.common_last_names,
    );
    let s8t = crate::culture::spec_opt_list_line(
        "male_regal_first_names"@,
        " No Male Regal First Names"@,
        e.male_regal_first_names,
    );
    let s9t = crate::culture::spec_opt_list_line(
        "female_regal_first_names"@,
        " No Female Regal First Names"@,
        e.female_regal_first_names,
    );
    let s10t = crate::culture::spec_opt_list_line(
        "regal_last_names"@,
        " No Regal Last Names"@,
        e.regal_last_names,
    );
    let set = "ethnicities"@ + " = {"@ + crate::culture::spec_eth_words(e.ethnicities)
        + " }\n"@;
    let sgt = "graphics"@ + " = "@ + e.graphics + "\n"@;
    let s3 = cu_mid3_stack(e);
    let st3 = StateV::Run { stack: s3, mode: ModeV::Idle, comment: false };
    lemma_run_append(st3, s4t, s5t + (s6t + (s7t + (s8t + (s9t + (s10t + (set + sgt)))))));
    lemma_opt_words_line(
        st3,
        "male_common_first_names"@,
        " No Male Common First Names"@,
        e.male_common_first_names,
    );
    let s4 = match e.male_common_first_names {
        Some(ws) => spec_with_field(s3, "male_common_first_names"@, spec_arr_value(ws)),
        None => s3,
    };
    let st4 = StateV::Run { stack: s4, mode: ModeV::Idle, comment: false };
    assert(spec_run(st3, s4t) == st4);
    lemma_run_append(st4, s5t, s6t + (s7t + (s8t + (s9t + (s10t + (set + sgt))))));
    lemma_opt_words_line(
        st4,
        "female_common_first_names"@,
        " No Female Common First Names"@,
        e.female_common_first_names,
    );
    let s5 = match e.female_common_first_names {
        Some(ws) => spec_with_field(s4, "female_common_first_names"@, spec_arr_value(ws)),
        None => s4,
    };
    let st5 = StateV::Run { stack: s5, mode: ModeV::Idle, comment: false };
    assert(spec_run(st4, s5t) == st5);
    lemma_run_append(st5, s6t, s7t + (s8t + (s9t + (s10t + (set + sgt)))));
    lemma_opt_words_line(st5, "noble_last_names"@, " No Noble Last Names"@, e.noble_last_names);
    let s6 = match e.noble_last_names {
        Some(ws) => spec_with_field(s5, "noble_last_names"@, spec_arr_value(ws)),
        None => s5,
    };
    let st6 = StateV::Run { stack: s6, mode: ModeV::Idle, comment: false };
    assert(spec_run(st5, s6t) == st6);
    lemma_run_append(st6, s7t, s8t + (s9t + (s10t + (set + sgt))));
    lemma_opt_words_line(
        st6,
        "common_last_names"@,
        " No Common Last Names"@,
        e.common_last_names,
    );
    let s7 = match e.common_last_names {
        Some(ws) => spec_with_field(s6, "common_last_names"@, spec_arr_value(ws)),
        None => s6,
    };
    let st7 = StateV::Run { stack: s7, mode: ModeV::Idle, comment: false };
    assert(spec_run(st6, s7t) == st7);
    lemma_run_append(st7, s8t, s9t + (s10t + (set + sgt)));
    lemma_opt_words_line(
        st7,
        "male_regal_first_names"@,
        " No Male Regal First Names"@,
        e.male_regal_first_names,
    );
    let s8 = match e.male_regal_first_names {
        Some(ws) => spec_with_field(s7, "male_regal_first_names"@, spec_arr_value(ws)),
        None => s7,
    };
    let st8 = StateV::Run { stack: s8, mode: ModeV::Idle, comment: false };
    assert(spec_run(st7, s8t) == st8);
    lemma_run_append(st8, s9t, s10t + (set + sgt));
    lemma_opt_words_line(
        st8,
        "female_regal_first_names"@,
        " No Female Regal First Names"@,
        e.female_regal_first_names,
    );
    let s9 = match e.female_regal_first_names {
        Some(ws) => spec_with_field(s8, "female_regal_first_names"@, spec_arr_value(ws)),
        None => s8,
    };
    let st9 = StateV::Run { stack: s9, mode: ModeV::Idle, comment: false };
    assert(spec_run(st8, s9t) == st9);
    lemma_run_append(st9, s10t, set + sgt);
    lemma_opt_words_line(st9, "regal_last_names"@, " No Regal Last Names"@, e.regal_last_names);
    let s10 = match e.regal_last_names {
        Some(ws) => spec_with_field(s9, "regal_last_names"@, spec_arr_value(ws)),
        None => s9,
    };
    let st10 = StateV::Run { stack: s10, mode: ModeV::Idle, comment: false };
    assert(spec_run(st9, s10t) == st10);
    lemma_run_append(st10, set, sgt);
    lemma_eth_field_line(st10, e.ethnicities);
    let s11 = spec_with_field(s10, "ethnicities"@, spec_eth_value(e.ethnicities));
    let st11 = StateV::Run { stack: s11, mode: ModeV::Idle, comment: false };
    assert(spec_run(st10, set) == st11);
    lemma_scalar_field_line(st11, "graphics"@, e.graphics);
    let st12 = StateV::Run {
        stack: spec_with_key(s11, "graphics"@),
        mode: ModeV::Pending(e.graphics),
        comment: false,
    };
    assert(spec_run(st11, sgt) == st12);
    assert(s11 == cu_mid11_stack(e));
}

/// Closing the entity block of a rendered culture: the fields become
/// the root object under the culture's identifier.
#[verifier::rlimit(100)]
proof fn lemma_culture_close(e: crate::culture::CultureV)
    ensures
        spec_close(cu_mid_stack(e)) is Some,
        spec_close(cu_mid_stack(e))->0 =~~= seq![
            FrameV {
                header: None,
                key: None,
                elems: seq![
                    ElemV::Field(
                        e.string_id,
                        ValueV::Object(spec_culture_field_list(e)),
                    ),
                ],
            },
        ],
{
    let sg = cu_mid_stack(e);
    let root0 = FrameV { header: None, key: None, elems: Seq::empty() };
    assert(sg.len() == 2);
    assert(sg.last().key is None && sg.last().header is None);
    let flel = spec_culture_field_list(e).map_values(|fv: FieldV| ElemV::Field(fv.key, fv.val));
    assert(sg.last().elems =~= flel);
    assert(spec_group_value(sg.last().elems) == Some(
        ValueV::Object(spec_culture_field_list(e)),
    )) by {
        let fl = sg.last().elems;
        assert(fl.len() > 0);
        assert forall|i: int| 0 <= i < fl.len() implies fl[i] is Field by {
            assert(fl[i] == ElemV::Field(
                spec_culture_field_list(e)[i].key,
                spec_culture_field_list(e)[i].val,
            ));
        }
        assert(spec_group_value(fl) is Some);
        assert(spec_group_value(fl)->0->Object_0 =~~= spec_culture_field_list(e)) by {
            let got = spec_group_value(fl)->0->Object_0;
            assert(got.len() == fl.len());
            assert forall|i: int|
                0 <= i < fl.len() implies got[i] == spec_culture_field_list(e)[i] by {
                assert(fl[i] == ElemV::Field(
                    spec_culture_field_list(e)[i].key,
                    spec_culture_field_list(e)[i].val,
                ));
                assert(got[i] == (FieldV { key: fl[i]->Field_0, val: fl[i]->Field_1 }));
            }
        }
    }
    assert(sg.drop_last() =~= spec_with_key(seq![root0], e.string_id));
    assert(sg.drop_last().last().key == Some(e.string_id));
    assert(spec_commit(sg.drop_last(), ValueV::Object(spec_culture_field_list(e))) is Some);
}

/// Driving the culture builder over the single parsed root entity.
#[verifier::rlimit(100)]
proof fn lemma_culture_drive_single(e: crate::culture::CultureV)
    requires
        spec_wf_culture(e),
    ensures
        crate::culture::spec_culture_drive(
            seq![(e.string_id, ValueV::Object(spec_culture_field_list(e)))],
        ) == Some((seq![e], Seq::<crate::logger::DiagV>::empty())),
{
    let fl = spec_culture_field_list(e);
    let p = seq![(e.string_id, ValueV::Object(fl))];
    lemma_culture_build_fields(e);
    assert(p.drop_last() =~= Seq::<(Seq<char>, ValueV)>::empty());
    assert(p.last() == (e.string_id, ValueV::Object(fl)));
    assert(crate::culture::spec_culture_drive(Seq::<(Seq<char>, ValueV)>::empty()) == Some(
        (Seq::<crate::culture::CultureV>::empty(), Seq::<crate::logger::DiagV>::empty()),
    ));
    assert(crate::country_definition::spec_obj_fields(ValueV::Object(fl)) == Some(fl));
    assert(Seq::<crate::culture::CultureV>::empty().push(e) =~= seq![e]);
    assert(Seq::<crate::logger::DiagV>::empty() + Seq::<crate::logger::DiagV>::empty()
        =~= Seq::<crate::logger::DiagV>::empty());
}

/// Law: parsing the canonical serialization of a valid culture yields
/// exactly that culture, with no diagnostics.
#[verifier::rlimit(100)]
pub proof fn lemma_culture_round_trip(e: crate::culture::CultureV)
    requires
        spec_wf_culture(e),
    ensures
        crate::culture::spec_parse_cultures(crate::culture::spec_culture_to_pdx(e)) == Some(
            (seq![e], Seq::<crate::logger::DiagV>::empty()),
        ),
{
    reveal_strlit("}");
    lemma_culture_walk_lines(e);
    lemma_culture_text_split(e);
    let text = crate::culture::spec_culture_to_pdx(e);
    let lines = cu_lines(e);
    assert(text == lines + seq!['}']);
    let st0 = spec_init();
    lemma_run_append(st0, lines, seq!['}']);
    let sth = spec_run(st0, lines);
    let sg = cu_mid_stack(e);
    let rootf = FrameV {
        header: None,
        key: None,
        elems: seq![ElemV::Field(e.string_id, ValueV::Object(spec_culture_field_list(e)))],
    };
    lemma_culture_close(e);
    lemma_close_block(sth);
    assert(spec_close(sg)->0 == seq![rootf]);
    let fin = StateV::Run { stack: seq![rootf], mode: ModeV::Idle, comment: false };
    assert(spec_run(st0, text) == fin);
    let fl = spec_culture_field_list(e);
    let pairs = crate::parser::spec_finish(fin);
    assert(pairs is Some && pairs->0 =~~= seq![(e.string_id, ValueV::Object(fl))]) by {
        assert(rootf.elems[0] is Field);
        assert(forall|i: int| 0 <= i < rootf.elems.len() ==> rootf.elems[i] is Field);
        assert(crate::parser::spec_root_fields(rootf.elems) is Some);
        let got = crate::parser::spec_root_fields(rootf.elems)->0;
        assert(got.len() == 1);
        assert(got[0] == (e.string_id, ValueV::Object(fl)));
    }
    let p = seq![(e.string_id, ValueV::Object(fl))];
    lemma_culture_drive_single(e);
    assert(crate::parser::spec_parse_text(text) == Some(p)) by {
        assert(crate::parser::spec_finish(fin)->0 =~~= p);
    }
}

/// The rendered fields of one division block, in serializer order.
pub open spec fn spec_div_field_list(d: crate::state::StateDivisionV) -> Seq<FieldV> {
    seq![FieldV { key: "country"@, val: ValueV::Scalar(d.country) }] + (match d.state_type {
        Some(t) => seq![FieldV { key: "state_type"@, val: ValueV::Scalar(t) }],
        None => Seq::<FieldV>::empty(),
    }) + seq![FieldV { key: "owned_provinces"@, val: spec_arr_value(d.provinces) }]
}

/// The value a rendered division reads back in as.
pub open spec fn spec_div_value(d: crate::state::StateDivisionV) -> ValueV {
    ValueV::Object(spec_div_field_list(d))
}

/// Law: a rendered division block reads back as the same division.
pub proof fn lemma_div_read(d: crate::state::StateDivisionV)
    ensures
        crate::state::spec_read_division(spec_div_value(d)) == Some(d),
{
    reveal_strlit("country");
    reveal_strlit("state_type");
    reveal_strlit("owned_provinces");
    assert("country"@.len() == 7 && "state_type"@.len() == 10 && "owned_provinces"@.len() == 15);
    lemma_arr_read(d.provinces);
    let fl = spec_div_field_list(d);
    let fc = FieldV { key: "country"@, val: ValueV::Scalar(d.country) };
    let fp = FieldV { key: "owned_provinces"@, val: spec_arr_value(d.provinces) };
    assert(crate::state::spec_div_fold(Seq::<FieldV>::empty()) == (
        None::<Seq<char>>,
        None::<Seq<Seq<char>>>,
        None::<Seq<char>>,
    ));
    assert(seq![fc].drop_last() =~= Seq::<FieldV>::empty());
    assert(seq![fc].last() == fc);
    assert(crate::state::spec_div_fold(seq![fc]) == (
        Some(d.country),
        None::<Seq<Seq<char>>>,
        None::<Seq<char>>,
    ));
    match d.state_type {
        Some(t) => {
            let ft = FieldV { key: "state_type"@, val: ValueV::Scalar(t) };
            assert(seq![fc, ft].drop_last() =~= seq![fc]);
            assert(seq![fc, ft].last() == ft);
            assert(crate::state::spec_div_fold(seq![fc, ft]) == (
                Some(d.country),
                None::<Seq<Seq<char>>>,
                Some(t),
            ));
            assert(fl =~= seq![fc, ft, fp]);
            assert(fl.drop_last() =~= seq![fc, ft]);
            assert(fl.last() == fp);
            assert(crate::state::spec_div_fold(fl) == (
                Some(d.country),
                Some(d.provinces),
                Some(t),
            ));
        },
        None => {
            assert(fl =~= seq![fc, fp]);
            assert(fl.drop_last() =~= seq![fc]);
            assert(fl.last() == fp);
            assert(crate::state::spec_div_fold(fl) == (
                Some(d.country),
                Some(d.provinces),
                None::<Seq<char>>,
            ));
        },
    }
    let got = crate::state::spec_read_division(spec_div_value(d));
    assert(got is Some);
    assert(got->0 =~~= d);
}

/// The rendered fields of one state block, in serializer order: the
/// homelands, then the divisions if any were created.
pub open spec fn spec_state_field_list(e: crate::state::StateV) -> Seq<FieldV> {
    e.homelands.map_values(|h: Seq<char>| (FieldV { key: "add_homeland"@, val: ValueV::Scalar(h) }))
        + (match e.divisions {
        Some(ds) => ds.map_values(
            |d: crate::state::StateDivisionV| (FieldV { key: "create_state"@, val: spec_div_value(d) }),
        ),
        None => Seq::<FieldV>::empty(),
    })
}

/// Applying a concatenation of state field lists applies each in turn.
proof fn lemma_state_apply_fields_append(
    b: crate::state::StateBuilderV,
    f1: Seq<FieldV>,
    f2: Seq<FieldV>,
)
    ensures
        crate::state::spec_state_apply_fields(b, f1 + f2)
            == crate::state::spec_state_apply_fields(
            crate::state::spec_state_apply_fields(b, f1),
            f2,
        ),
    decreases f2.len(),
{
    if f2.len() == 0 {
        assert(f1 + f2 =~= f1);
    } else {
        assert((f1 + f2).drop_last() =~= f1 + f2.drop_last());
        assert((f1 + f2).last() == f2.last());
        lemma_state_apply_fields_append(b, f1, f2.drop_last());
    }
}

/// Applying the rendered homeland fields stages exactly the homeland
/// list.
proof fn lemma_state_apply_homelands(b: crate::state::StateBuilderV, hs: Seq<Seq<char>>)
    requires
        b.homelands is None || b.homelands->0.len() > 0,
    ensures
        crate::state::spec_state_apply_fields(
            b,
            hs.map_values(
                |h: Seq<char>| (FieldV { key: "add_homeland"@, val: ValueV::Scalar(h) }),
            ),
        ) == (crate::state::StateBuilderV {
            homelands: if b.homelands is None && hs.len() == 0 {
                None
            } else {
                Some(
                    (match b.homelands {
                        Some(prev) => prev,
                        None => Seq::<Seq<char>>::empty(),
                    }) + hs,
                )
            },
            ..b
        }),
    decreases hs.len(),
{
    reveal_strlit("add_homeland");
    reveal_strlit("create_state");
    assert("add_homeland"@ != "create_state"@) by {
        assert("add_homeland"@[0] == 'a');
        assert("create_state"@[0] == 'c');
    }
    let m = hs.map_values(|h: Seq<char>| (FieldV { key: "add_homeland"@, val: ValueV::Scalar(h) }));
    if hs.len() == 0 {
        assert(m =~= Seq::<FieldV>::empty());
        match b.homelands {
            Some(prev) => {
                assert(prev + hs =~= prev);
                assert(crate::state::spec_state_apply_fields(b, m) =~~= (
                crate::state::StateBuilderV { homelands: Some(prev + hs), ..b }));
            },
            None => {},
        }
    } else {
        let dm = hs.drop_last().map_values(
            |h: Seq<char>| (FieldV { key: "add_homeland"@, val: ValueV::Scalar(h) }),
        );
        assert(m.drop_last() =~= dm) by {
            assert(m.drop_last().len() == dm.len());
            assert(forall|i: int| 0 <= i < dm.len() ==> m.drop_last()[i] == dm[i]);
        }
        assert(m.last() == (FieldV { key: "add_homeland"@, val: ValueV::Scalar(hs.last()) }));
        lemma_state_apply_homelands(b, hs.drop_last());
        let mid = crate::state::spec_state_apply_fields(b, dm);
        let res = crate::state::spec_state_apply(mid, "add_homeland"@, ValueV::Scalar(hs.last())).0;
        assert(crate::state::spec_state_apply_fields(b, m) == res);
        let prev0 = match b.homelands {
            Some(prev) => prev,
            None => Seq::<Seq<char>>::empty(),
        };
        assert(res.homelands is Some);
        assert(res.homelands->0 =~= prev0 + hs) by {
            if b.homelands is None && hs.drop_last().len() == 0 {
                assert(mid.homelands is None);
                assert(res.homelands->0 =~= seq![hs.last()]);
                assert(prev0 + hs =~= seq![hs.last()]);
            } else {
                assert(mid.homelands->0 == prev0 + hs.drop_last());
                assert((prev0 + hs.drop_last()).push(hs.last()) =~= prev0 + hs);
            }
        }
        assert(crate::state::spec_state_apply_fields(b, m) =~~= (crate::state::StateBuilderV {
            homelands: Some(prev0 + hs),
            ..b
        }));
    }
}

/// Applying the rendered division fields stages exactly the division
/// list.
proof fn lemma_state_apply_divisions(
    b: crate::state::StateBuilderV,
    ds: Seq<crate::state::StateDivisionV>,
)
    requires
        b.divisions is None || b.divisions->0.len() > 0,
    ensures
        crate::state::spec_state_apply_fields(
            b,
            ds.map_values(
                |d: crate::state::StateDivisionV| (FieldV {
                    key: "create_state"@,
                    val: spec_div_value(d),
                }),
            ),
        ) == (crate::state::StateBuilderV {
            divisions: if b.divisions is None && ds.len() == 0 {
                None
            } else {
                Some(
                    (match b.divisions {
                        Some(prev) => prev,
                        None => Seq::<crate::state::StateDivisionV>::empty(),
                    }) + ds,
                )
            },
            ..b
        }),
    decreases ds.len(),
{
    reveal_strlit("create_state");
    let m = ds.map_values(
        |d: crate::state::StateDivisionV| (FieldV { key: "create_state"@, val: spec_div_value(d) }),
    );
    if ds.len() == 0 {
        assert(m =~= Seq::<FieldV>::empty());
        match b.divisions {
            Some(prev) => {
                assert(prev + ds =~= prev);
                assert(crate::state::spec_state_apply_fields(b, m) =~~= (
                crate::state::StateBuilderV { divisions: Some(prev + ds), ..b }));
            },
            None => {},
        }
    } else {
        let dm = ds.drop_last().map_values(
            |d: crate::state::StateDivisionV| (FieldV {
                key: "create_state"@,
                val: spec_div_value(d),
            }),
        );
        assert(m.drop_last() =~= dm) by {
            assert(m.drop_last().len() == dm.len());
            assert(forall|i: int| 0 <= i < dm.len() ==> m.drop_last()[i] == dm[i]);
        }
        assert(m.last() == (FieldV { key: "create_state"@, val: spec_div_value(ds.last()) }));
        lemma_state_apply_divisions(b, ds.drop_last());
        let mid = crate::state::spec_state_apply_fields(b, dm);
        lemma_div_read(ds.last());
        let res = crate::state::spec_state_apply(mid, "create_state"@, spec_div_value(ds.last())).0;
        assert(crate::state::spec_state_apply_fields(b, m) == res);
        let prev0 = match b.divisions {
            Some(prev) => prev,
            None => Seq::<crate::state::StateDivisionV>::empty(),
        };
        assert(res.divisions is Some);
        assert(res.divisions->0 =~= prev0 + ds) by {
            if b.divisions is None && ds.drop_last().len() == 0 {
                assert(mid.divisions is None);
                assert(res.divisions->0 =~= seq![ds.last()]);
                assert(prev0 + ds =~= seq![ds.last()]);
            } else {
                assert(mid.divisions->0 == prev0 + ds.drop_last());
                assert((prev0 + ds.drop_last()).push(ds.last()) =~= prev0 + ds);
            }
        }
        assert(crate::state::spec_state_apply_fields(b, m) =~~= (crate::state::StateBuilderV {
            divisions: Some(prev0 + ds),
            ..b
        }));
    }
}

/// A valid state: every text a bare token.
pub open spec fn spec_wf_state(e: crate::state::StateV) -> bool {
    spec_wf_word(e.name) && spec_wf_words(e.homelands) && (match e.divisions {
        Some(ds) => forall|i: int|
            0 <= i < ds.len() ==> spec_wf_word(#[trigger] ds[i].country) && spec_wf_words(
                ds[i].provinces,
            ) && (match ds[i].state_type {
                Some(t) => spec_wf_word(t),
                None => true,
            }),
        None => true,
    })
}

/// Law: building back the rendered fields of a state yields the same
/// state, with no diagnostics. A state whose division list is present
/// but empty renders the same as one with no divisions at all, so the
/// law asks for a non-empty list when one is present.
pub proof fn lemma_state_build_fields(e: crate::state::StateV)
    requires
        match e.divisions {
            Some(ds) => ds.len() > 0,
            None => true,
        },
    ensures
        crate::state::spec_state_entity(e.name, spec_state_field_list(e)) == (
            Some(e),
            Seq::<crate::logger::DiagV>::empty(),
        ),
{
    let b0 = crate::state::spec_state_apply_root(crate::state::spec_state_new(), e.name);
    let hm = e.homelands.map_values(
        |h: Seq<char>| (FieldV { key: "add_homeland"@, val: ValueV::Scalar(h) }),
    );
    let dm = match e.divisions {
        Some(ds) => ds.map_values(
            |d: crate::state::StateDivisionV| (FieldV {
                key: "create_state"@,
                val: spec_div_value(d),
            }),
        ),
        None => Seq::<FieldV>::empty(),
    };
    assert(spec_state_field_list(e) == hm + dm);
    lemma_state_apply_fields_append(b0, hm, dm);
    lemma_state_apply_homelands(b0, e.homelands);
    let b1 = crate::state::spec_state_apply_fields(b0, hm);
    match e.divisions {
        Some(ds) => {
            lemma_state_apply_divisions(b1, ds);
            assert(Seq::<crate::state::StateDivisionV>::empty() + ds =~= ds);
        },
        None => {
            assert(dm =~= Seq::<FieldV>::empty());
        },
    }
    let b2 = crate::state::spec_state_apply_fields(b1, dm);
    assert(b2.name == Some(e.name));
    assert(b2.diags =~= Seq::<crate::logger::DiagV>::empty());
    let (res, diags) = crate::state::spec_state_build(b2);
    assert(res is Some);
    assert(res->0 =~~= e) by {
        if e.homelands.len() == 0 {
            assert(b2.homelands is None);
        } else {
            assert(b2.homelands->0 =~= Seq::<Seq<char>>::empty() + e.homelands);
            assert(Seq::<Seq<char>>::empty() + e.homelands =~= e.homelands);
        }
    }
}

/// The value a rendered state block reads back in as: the explicit
/// absent value when the state has no fields at all, else the object of
/// its rendered fields.
pub open spec fn spec_state_value(e: crate::state::StateV) -> ValueV {
    if spec_state_field_list(e).len() == 0 {
        ValueV::Absent
    } else {
        ValueV::Object(spec_state_field_list(e))
    }
}

/// The stack with one more `add_homeland` field per homeland on its top
/// frame.
pub open spec fn spec_with_hl_fields(stack: Seq<FrameV>, hs: Seq<Seq<char>>) -> Seq<FrameV> {
    let top = stack.last();
    stack.update(
        stack.len() - 1,
        FrameV {
            header: top.header,
            key: None,
            elems: top.elems + hs.map_values(
                |h: Seq<char>| ElemV::Field("add_homeland"@, ValueV::Scalar(h)),
            ),
        },
    )
}

/// The stack with one more `create_state` field per division on its top
/// frame.
pub open spec fn spec_with_div_fields(
    stack: Seq<FrameV>,
    ds: Seq<crate::state::StateDivisionV>,
) -> Seq<FrameV> {
    let top = stack.last();
    stack.update(
        stack.len() - 1,
        FrameV {
            header: top.header,
            key: None,
            elems: top.elems + ds.map_values(
                |d: crate::state::StateDivisionV| ElemV::Field("create_state"@, spec_div_value(d)),
            ),
        },
    )
}

/// The stack with one field per rendered state on its top frame.
pub open spec fn spec_with_state_fields(
    stack: Seq<FrameV>,
    ss: Seq<crate::state::StateV>,
) -> Seq<FrameV> {
    let top = stack.last();
    stack.update(
        stack.len() - 1,
        FrameV {
            header: top.header,
            key: None,
            elems: top.elems + ss.map_values(
                |e: crate::state::StateV| ElemV::Field(e.name, spec_state_value(e)),
            ),
        },
    )
}

/// Attaching one more homeland field extends the homeland fields.
proof fn lemma_hl_fields_snoc(stack: Seq<FrameV>, hs: Seq<Seq<char>>, h: Seq<char>)
    requires
        stack.len() >= 1,
    ensures
        spec_with_field(spec_with_hl_fields(stack, hs), "add_homeland"@, ValueV::Scalar(h))
            =~~= spec_with_hl_fields(stack, hs.push(h)),
{
    let f = ElemV::Field("add_homeland"@, ValueV::Scalar(h));
    let m1 = hs.map_values(|w: Seq<char>| ElemV::Field("add_homeland"@, ValueV::Scalar(w)));
    let m2 = hs.push(h).map_values(
        |w: Seq<char>| ElemV::Field("add_homeland"@, ValueV::Scalar(w)),
    );
    assert(m2 =~= m1.push(f)) by {
        assert(m2.len() == m1.len() + 1);
        assert forall|i: int| 0 <= i < m1.len() implies m2[i] == m1[i] by {
            assert(hs.push(h)[i] == hs[i]);
        }
        assert(hs.push(h).last() == h);
        assert(m2.last() == f);
    }
    assert((stack.last().elems + m1).push(f) =~= stack.last().elems + m2);
}

/// Attaching one more division field extends the division fields.
proof fn lemma_div_fields_snoc(
    stack: Seq<FrameV>,
    ds: Seq<crate::state::StateDivisionV>,
    d: crate::state::StateDivisionV,
)
    requires
        stack.len() >= 1,
    ensures
        spec_with_field(spec_with_div_fields(stack, ds), "create_state"@, spec_div_value(d))
            =~~= spec_with_div_fields(stack, ds.push(d)),
{
    let f = ElemV::Field("create_state"@, spec_div_value(d));
    let m1 = ds.map_values(
        |x: crate::state::StateDivisionV| ElemV::Field("create_state"@, spec_div_value(x)),
    );
    let m2 = ds.push(d).map_values(
        |x: crate::state::StateDivisionV| ElemV::Field("create_state"@, spec_div_value(x)),
    );
    assert(m2 =~= m1.push(f)) by {
        assert(m2.len() == m1.len() + 1);
        assert forall|i: int| 0 <= i < m1.len() implies m2[i] == m1[i] by {
            assert(ds.push(d)[i] == ds[i]);
        }
        assert(ds.push(d).last() == d);
        assert(m2.last() == f);
    }
    assert((stack.last().elems + m1).push(f) =~= stack.last().elems + m2);
}

/// Attaching one more state field extends the state fields.
proof fn lemma_state_fields_snoc(
    stack: Seq<FrameV>,
    ss: Seq<crate::state::StateV>,
    e: crate::state::StateV,
)
    requires
        stack.len() >= 1,
    ensures
        spec_with_field(spec_with_state_fields(stack, ss), e.name, spec_state_value(e))
            =~~= spec_with_state_fields(stack, ss.push(e)),
{
    let f = ElemV::Field(e.name, spec_state_value(e));
    let m1 = ss.map_values(
        |x: crate::state::StateV| ElemV::Field(x.name, spec_state_value(x)),
    );
    let m2 = ss.push(e).map_values(
        |x: crate::state::StateV| ElemV::Field(x.name, spec_state_value(x)),
    );
    assert(m2 =~= m1.push(f)) by {
        assert(m2.len() == m1.len() + 1);
        assert forall|i: int| 0 <= i < m1.len() implies m2[i] == m1[i] by {
            assert(ss.push(e)[i] == ss[i]);
        }
        assert(ss.push(e).last() == e);
        assert(m2.last() == f);
    }
    assert((stack.last().elems + m1).push(f) =~= stack.last().elems + m2);
}

/// The rendered homeland lines, from an open state group: each line
/// attaches one `add_homeland` field, the last one still pending.
proof fn lemma_homeland_lines_run(stack: Seq<FrameV>, hs: Seq<Seq<char>>)
    requires
        stack.len() >= 2,
        stack.last().key is None,
        spec_wf_words(hs),
    ensures
        spec_run(
            StateV::Run { stack, mode: ModeV::Idle, comment: false },
            crate::state::spec_homeland_lines(hs),
        ) == (if hs.len() == 0 {
            StateV::Run { stack, mode: ModeV::Idle, comment: false }
        } else {
            StateV::Run {
                stack: spec_with_key(spec_with_hl_fields(stack, hs.drop_last()), "add_homeland"@),
                mode: ModeV::Pending(hs.last()),
                comment: false,
            }
        }),
    decreases hs.len(),
{
    reveal_strlit("add_homeland = ");
    reveal_strlit("add_homeland");
    reveal_strlit(" = ");
    reveal_strlit("\n");
    assert(spec_wf_word("add_homeland"@)) by {
        assert(forall|i: int|
            0 <= i < "add_homeland"@.len() ==> spec_bare(#[trigger] "add_homeland"@[i]));
    }
    let st0 = StateV::Run { stack, mode: ModeV::Idle, comment: false };
    if hs.len() == 0 {
    } else {
        let dl = hs.drop_last();
        assert(spec_wf_words(dl)) by {
            assert(forall|i: int| 0 <= i < dl.len() ==> #[trigger] dl[i] == hs[i]);
        }
        lemma_homeland_lines_run(stack, dl);
        let line = "add_homeland = "@ + hs.last() + "\n"@;
        assert(crate::state::spec_homeland_lines(hs) =~= crate::state::spec_homeland_lines(dl)
            + line);
        lemma_run_append(st0, crate::state::spec_homeland_lines(dl), line);
        let mid = spec_run(st0, crate::state::spec_homeland_lines(dl));
        let resolved = spec_with_hl_fields(stack, dl);
        if dl.len() == 0 {
            assert(mid == st0);
            assert(resolved =~~= stack) by {
                let m = dl.map_values(
                    |w: Seq<char>| ElemV::Field("add_homeland"@, ValueV::Scalar(w)),
                );
                assert(stack.last().elems + m =~= stack.last().elems);
            }
            assert(spec_resolve(mid) == Some(stack));
        } else {
            lemma_resolve_with_key(
                spec_with_hl_fields(stack, dl.drop_last()),
                "add_homeland"@,
                dl.last(),
            );
            lemma_hl_fields_snoc(stack, dl.drop_last(), dl.last());
            assert(dl.drop_last().push(dl.last()) =~= dl);
            assert(spec_resolve(mid) is Some && spec_resolve(mid)->0 == resolved);
        }
        assert(spec_between(mid));
        assert(resolved.last().key is None);
        assert(resolved.len() == stack.len());
        assert(line =~= "add_homeland"@ + " = "@ + hs.last() + "\n"@);
        lemma_scalar_field_line(mid, "add_homeland"@, hs.last());
    }
}

/// One whole rendered division block: it attaches one `create_state`
/// field, holding the division's object, to the enclosing state group.
#[verifier::rlimit(100)]
proof fn lemma_div_block(st: StateV, d: crate::state::StateDivisionV)
    requires
        spec_between(st),
        spec_resolve(st)->0.len() >= 2,
        spec_resolve(st)->0.last().key is None,
        spec_wf_word(d.country),
        spec_wf_words(d.provinces),
        match d.state_type {
            Some(t) => spec_wf_word(t),
            None => true,
        },
    ensures
        spec_run(st, crate::state::spec_div_to_pdx(d)) == (StateV::Run {
            stack: spec_with_field(spec_resolve(st)->0, "create_state"@, spec_div_value(d)),
            mode: ModeV::Idle,
            comment: false,
        }),
{
    reveal_strlit("create_state = {\ncountry = ");
    reveal_strlit("create_state");
    reveal_strlit(" = {\n");
    reveal_strlit("country");
    reveal_strlit(" = ");
    reveal_strlit("\n");
    reveal_strlit("state_type = ");
    reveal_strlit("state_type");
    reveal_strlit("# state_type = incorporated\n");
    reveal_strlit(" state_type = incorporated");
    reveal_strlit("owned_provinces = {");
    reveal_strlit("owned_provinces");
    reveal_strlit(" = {");
    reveal_strlit(" }\n}\n");
    reveal_strlit(" }\n");
    assert(spec_wf_word("create_state"@)) by {
        assert(forall|i: int|
            0 <= i < "create_state"@.len() ==> spec_bare(#[trigger] "create_state"@[i]));
    }
    assert(spec_wf_word("country"@)) by {
        assert(forall|i: int| 0 <= i < "country"@.len() ==> spec_bare(#[trigger] "country"@[i]));
    }
    assert(spec_wf_word("state_type"@)) by {
        assert(forall|i: int|
            0 <= i < "state_type"@.len() ==> spec_bare(#[trigger] "state_type"@[i]));
    }
    assert(spec_wf_word("owned_provinces"@)) by {
        assert(forall|i: int|
            0 <= i < "owned_provinces"@.len() ==> spec_bare(#[trigger] "owned_provinces"@[i]));
    }
    let s0 = spec_resolve(st)->0;
    let t_open = "create_state"@ + " = {\n"@;
    let t_country = "country"@ + " = "@ + d.country + "\n"@;
    let t_st = match d.state_type {
        Some(t) => "state_type"@ + " = "@ + t + "\n"@,
        None => seq!['#'] + " state_type = incorporated"@ + seq!['\n'],
    };
    let t_arr = "owned_provinces"@ + " = {"@ + crate::country_definition::spec_words(d.provinces)
        + " }\n"@;
    let text = crate::state::spec_div_to_pdx(d);
    assert(text =~= t_open + (t_country + (t_st + (t_arr + (seq!['}'] + seq!['\n'])))));
    lemma_run_append(st, t_open, t_country + (t_st + (t_arr + (seq!['}'] + seq!['\n']))));
    lemma_open_block(st, "create_state"@);
    let s1 = spec_with_key(s0, "create_state"@).push(
        FrameV { header: None, key: None, elems: Seq::empty() },
    );
    let st1 = StateV::Run { stack: s1, mode: ModeV::Idle, comment: false };
    assert(spec_run(st, t_open) == st1);
    lemma_run_append(st1, t_country, t_st + (t_arr + (seq!['}'] + seq!['\n'])));
    assert(spec_resolve(st1) == Some(s1));
    assert(s1.last().key is None);
    lemma_scalar_field_line(st1, "country"@, d.country);
    let st2 = StateV::Run {
        stack: spec_with_key(s1, "country"@),
        mode: ModeV::Pending(d.country),
        comment: false,
    };
    assert(spec_run(st1, t_country) == st2);
    lemma_run_append(st2, t_st, t_arr + (seq!['}'] + seq!['\n']));
    let s2 = spec_with_field(s1, "country"@, ValueV::Scalar(d.country));
    lemma_resolve_with_key(s1, "country"@, d.country);
    assert(spec_resolve(st2) is Some && spec_resolve(st2)->0 == s2);
    let st3 = match d.state_type {
        Some(t) => StateV::Run {
            stack: spec_with_key(s2, "state_type"@),
            mode: ModeV::Pending(t),
            comment: false,
        },
        None => st2,
    };
    match d.state_type {
        Some(t) => {
            assert(s2.last().key is None);
            lemma_scalar_field_line(st2, "state_type"@, t);
            assert(spec_run(st2, t_st) == st3);
        },
        None => {
            assert(forall|i: int|
                0 <= i < " state_type = incorporated"@.len()
                    ==> #[trigger] " state_type = incorporated"@[i] != '\n');
            lemma_comment_line(st2, " state_type = incorporated"@);
            assert(spec_run(st2, t_st) == st3);
        },
    }
    lemma_run_append(st3, t_arr, seq!['}'] + seq!['\n']);
    let s3 = match d.state_type {
        Some(t) => spec_with_field(s2, "state_type"@, ValueV::Scalar(t)),
        None => s2,
    };
    match d.state_type {
        Some(t) => {
            lemma_resolve_with_key(s2, "state_type"@, t);
        },
        None => {},
    }
    assert(spec_between(st3));
    assert(spec_resolve(st3) is Some && spec_resolve(st3)->0 == s3);
    assert(s3.last().key is None);
    assert(s3.len() == s1.len());
    lemma_array_field_line(st3, "owned_provinces"@, d.provinces);
    let s4 = spec_with_field(s3, "owned_provinces"@, spec_arr_value(d.provinces));
    let st4 = StateV::Run { stack: s4, mode: ModeV::Idle, comment: false };
    assert(spec_run(st3, t_arr) == st4);
    lemma_run_append(st4, seq!['}'], seq!['\n']);
    assert(spec_resolve(st4) == Some(s4));
    assert(s4.len() >= 2);
    assert(s4.last().key is None);
    let fl = spec_div_field_list(d);
    let flel = fl.map_values(|fv: FieldV| ElemV::Field(fv.key, fv.val));
    assert(s4.last().elems =~= flel) by {
        match d.state_type {
            Some(t) => {
                assert(fl =~= seq![
                    FieldV { key: "country"@, val: ValueV::Scalar(d.country) },
                    FieldV { key: "state_type"@, val: ValueV::Scalar(t) },
                    FieldV { key: "owned_provinces"@, val: spec_arr_value(d.provinces) },
                ]);
            },
            None => {
                assert(fl =~= seq![
                    FieldV { key: "country"@, val: ValueV::Scalar(d.country) },
                    FieldV { key: "owned_provinces"@, val: spec_arr_value(d.provinces) },
                ]);
            },
        }
    }
    assert(spec_group_value(s4.last().elems) == Some(ValueV::Object(fl))) by {
        let el = s4.last().elems;
        assert(el.len() > 0);
        assert forall|i: int| 0 <= i < el.len() implies el[i] is Field by {
            assert(el[i] == flel[i]);
            assert(flel[i] == ElemV::Field(fl[i].key, fl[i].val));
        }
        assert(spec_group_value(el) is Some);
        assert(spec_group_value(el)->0->Object_0 =~~= fl) by {
            let got = spec_group_value(el)->0->Object_0;
            assert(got.len() == el.len());
            assert forall|i: int| 0 <= i < el.len() implies got[i] == fl[i] by {
                assert(el[i] == ElemV::Field(fl[i].key, fl[i].val));
                assert(got[i] == (FieldV { key: el[i]->Field_0, val: el[i]->Field_1 }));
            }
        }
    }
    assert(s4.last().header is None);
    assert(s4.drop_last() =~= spec_with_key(s0, "create_state"@));
    assert(s4.drop_last().last().key == Some("create_state"@));
    assert(spec_close(s4) is Some);
    lemma_close_block(st4);
    assert(spec_close(s4)->0 =~~= spec_with_field(s0, "create_state"@, spec_div_value(d)));
    let st5 = StateV::Run {
        stack: spec_with_field(s0, "create_state"@, spec_div_value(d)),
        mode: ModeV::Idle,
        comment: false,
    };
    assert(spec_run(st4, seq!['}']) == st5);
    lemma_run1(st5, '\n');
    assert(spec_run(st5, seq!['\n']) == st5);
}

/// A division's rendered fields are all well-formed words.
pub open spec fn spec_wf_div(d: crate::state::StateDivisionV) -> bool {
    spec_wf_word(d.country) && spec_wf_words(d.provinces) && (match d.state_type {
        Some(t) => spec_wf_word(t),
        None => true,
    })
}

/// The concatenated division blocks attach one `create_state` field
/// each, in order.
proof fn lemma_div_blocks_run(st: StateV, ds: Seq<crate::state::StateDivisionV>)
    requires
        spec_between(st),
        spec_resolve(st)->0.len() >= 2,
        spec_resolve(st)->0.last().key is None,
        ds.len() > 0,
        forall|i: int| 0 <= i < ds.len() ==> spec_wf_div(#[trigger] ds[i]),
    ensures
        spec_run(st, crate::state::spec_div_blocks(ds)) == (StateV::Run {
            stack: spec_with_div_fields(spec_resolve(st)->0, ds),
            mode: ModeV::Idle,
            comment: false,
        }),
    decreases ds.len(),
{
    let s0 = spec_resolve(st)->0;
    if ds.len() == 1 {
        assert(crate::state::spec_div_blocks(ds) =~= crate::state::spec_div_to_pdx(ds[0])) by {
            assert(ds.drop_last().len() == 0);
            assert(Seq::<char>::empty() + crate::state::spec_div_to_pdx(ds.last())
                =~= crate::state::spec_div_to_pdx(ds.last()));
            assert(ds.last() == ds[0]);
        }
        lemma_div_block(st, ds[0]);
        assert(spec_with_div_fields(s0, Seq::<crate::state::StateDivisionV>::empty()) =~~= s0) by {
            let m = Seq::<crate::state::StateDivisionV>::empty().map_values(
                |x: crate::state::StateDivisionV| ElemV::Field("create_state"@, spec_div_value(x)),
            );
            assert(s0.last().elems + m =~= s0.last().elems);
        }
        lemma_div_fields_snoc(s0, Seq::<crate::state::StateDivisionV>::empty(), ds[0]);
        assert(Seq::<crate::state::StateDivisionV>::empty().push(ds[0]) =~= ds);
    } else {
        let dl = ds.drop_last();
        assert(forall|i: int| 0 <= i < dl.len() ==> #[trigger] dl[i] == ds[i]);
        lemma_div_blocks_run(st, dl);
        assert(crate::state::spec_div_blocks(ds) == crate::state::spec_div_blocks(dl)
            + crate::state::spec_div_to_pdx(ds.last()));
        lemma_run_append(
            st,
            crate::state::spec_div_blocks(dl),
            crate::state::spec_div_to_pdx(ds.last()),
        );
        let ws = spec_with_div_fields(s0, dl);
        let mid = StateV::Run { stack: ws, mode: ModeV::Idle, comment: false };
        assert(spec_run(st, crate::state::spec_div_blocks(dl)) == mid);
        assert(spec_resolve(mid) == Some(ws));
        assert(ws.last().key is None);
        assert(ws.len() == s0.len());
        assert(spec_wf_div(ds.last()));
        lemma_div_block(mid, ds.last());
        lemma_div_fields_snoc(s0, dl, ds.last());
        assert(dl.push(ds.last()) =~= ds);
    }
}

/// One whole rendered state block with its trailing newline: it
/// attaches one field, keyed by the state's name and holding the
/// state's value, to the enclosing wrapper group.
#[verifier::rlimit(100)]
proof fn lemma_state_block(st: StateV, e: crate::state::StateV)
    requires
        spec_between(st),
        spec_resolve(st)->0.len() >= 1,
        spec_resolve(st)->0.last().key is None,
        spec_wf_state(e),
        match e.divisions {
            Some(ds) => ds.len() > 0,
            None => true,
        },
    ensures
        spec_run(st, crate::state::spec_state_to_pdx(e) + seq!['\n']) == (StateV::Run {
            stack: spec_with_field(spec_resolve(st)->0, e.name, spec_state_value(e)),
            mode: ModeV::Idle,
            comment: false,
        }),
{
    reveal_strlit(" = {\n");
    reveal_strlit("# No Divisions\n");
    reveal_strlit(" No Divisions");
    reveal_strlit("}");
    reveal_strlit("add_homeland");
    reveal_strlit("create_state");
    let s0 = spec_resolve(st)->0;
    let t_open = e.name + " = {\n"@;
    let t_hl = crate::state::spec_homeland_lines(e.homelands);
    let t_div = match e.divisions {
        Some(ds) => crate::state::spec_div_blocks(ds),
        None => seq!['#'] + " No Divisions"@ + seq!['\n'],
    };
    let text = crate::state::spec_state_to_pdx(e) + seq!['\n'];
    assert(text =~= t_open + (t_hl + (t_div + (seq!['}'] + seq!['\n']))));
    lemma_run_append(st, t_open, t_hl + (t_div + (seq!['}'] + seq!['\n'])));
    lemma_open_block(st, e.name);
    let s1 = spec_with_key(s0, e.name).push(
        FrameV { header: None, key: None, elems: Seq::empty() },
    );
    let st1 = StateV::Run { stack: s1, mode: ModeV::Idle, comment: false };
    assert(spec_run(st, t_open) == st1);
    lemma_run_append(st1, t_hl, t_div + (seq!['}'] + seq!['\n']));
    lemma_homeland_lines_run(s1, e.homelands);
    let sth = spec_run(st1, t_hl);
    let s2 = spec_with_hl_fields(s1, e.homelands);
    if e.homelands.len() == 0 {
        assert(sth == st1);
        assert(s2 =~~= s1) by {
            let m = e.homelands.map_values(
                |w: Seq<char>| ElemV::Field("add_homeland"@, ValueV::Scalar(w)),
            );
            assert(s1.last().elems + m =~= s1.last().elems);
        }
        assert(spec_resolve(sth) == Some(s1));
    } else {
        lemma_resolve_with_key(
            spec_with_hl_fields(s1, e.homelands.drop_last()),
            "add_homeland"@,
            e.homelands.last(),
        );
        lemma_hl_fields_snoc(s1, e.homelands.drop_last(), e.homelands.last());
        assert(e.homelands.drop_last().push(e.homelands.last()) =~= e.homelands);
        assert(spec_resolve(sth) is Some && spec_resolve(sth)->0 == s2);
    }
    assert(spec_between(sth));
    assert(s2.last().key is None);
    assert(s2.len() == s1.len());
    lemma_run_append(sth, t_div, seq!['}'] + seq!['\n']);
    let s3 = match e.divisions {
        Some(ds) => spec_with_div_fields(s2, ds),
        None => s2,
    };
    let std2 = spec_run(sth, t_div);
    match e.divisions {
        Some(ds) => {
            assert(forall|i: int| 0 <= i < ds.len() ==> spec_wf_div(#[trigger] ds[i]));
            lemma_div_blocks_run(sth, ds);
            assert(std2 == StateV::Run { stack: s3, mode: ModeV::Idle, comment: false });
            assert(spec_resolve(std2) == Some(s3));
        },
        None => {
            assert(forall|i: int|
                0 <= i < " No Divisions"@.len() ==> #[trigger] " No Divisions"@[i] != '\n');
            lemma_comment_line(sth, " No Divisions"@);
            assert(std2 == sth);
        },
    }
    assert(spec_between(std2));
    assert(spec_resolve(std2)->0 == s3);
    lemma_run_append(std2, seq!['}'], seq!['\n']);
    assert(s3.len() >= 2);
    assert(s3.last().key is None);
    let fl = spec_state_field_list(e);
    let flel = fl.map_values(|fv: FieldV| ElemV::Field(fv.key, fv.val));
    assert(s3.last().elems =~= flel) by {
        let hm = e.homelands.map_values(
            |h: Seq<char>| (FieldV { key: "add_homeland"@, val: ValueV::Scalar(h) }),
        );
        let n_h = e.homelands.len() as int;
        assert forall|i: int| 0 <= i < s3.last().elems.len() implies s3.last().elems[i] == flel[i]
        by {
            if i < n_h {
                assert(s3.last().elems[i] == ElemV::Field(
                    "add_homeland"@,
                    ValueV::Scalar(e.homelands[i]),
                ));
                assert(fl[i] == (FieldV { key: "add_homeland"@, val: ValueV::Scalar(
                    e.homelands[i],
                ) }));
            } else {
                let ds = e.divisions->0;
                assert(s3.last().elems[i] == ElemV::Field(
                    "create_state"@,
                    spec_div_value(ds[i - n_h]),
                ));
                assert(fl[i] == (FieldV { key: "create_state"@, val: spec_div_value(
                    ds[i - n_h],
                ) }));
            }
        }
    }
    assert(spec_group_value(s3.last().elems) == Some(spec_state_value(e))) by {
        let el = s3.last().elems;
        if el.len() == 0 {
            assert(fl.len() == 0);
            assert(spec_state_value(e) == ValueV::Absent);
        } else {
            assert forall|i: int| 0 <= i < el.len() implies el[i] is Field by {
                assert(el[i] == flel[i]);
                assert(flel[i] == ElemV::Field(fl[i].key, fl[i].val));
            }
            assert(spec_group_value(el) is Some);
            assert(spec_group_value(el)->0->Object_0 =~~= fl) by {
                let got = spec_group_value(el)->0->Object_0;
                assert(got.len() == el.len());
                assert forall|i: int| 0 <= i < el.len() implies got[i] == fl[i] by {
                    assert(el[i] == ElemV::Field(fl[i].key, fl[i].val));
                    assert(got[i] == (FieldV { key: el[i]->Field_0, val: el[i]->Field_1 }));
                }
            }
        }
    }
    assert(s3.last().header is None);
    assert(s3.drop_last() =~= spec_with_key(s0, e.name));
    assert(s3.drop_last().last().key == Some(e.name));
    assert(spec_close(s3) is Some);
    lemma_close_block(std2);
    assert(spec_close(s3)->0 =~~= spec_with_field(s0, e.name, spec_state_value(e)));
    let stc = StateV::Run {
        stack: spec_with_field(s0, e.name, spec_state_value(e)),
        mode: ModeV::Idle,
        comment: false,
    };
    assert(spec_run(std2, seq!['}']) == stc);
    lemma_run1(stc, '\n');
    assert(spec_run(stc, seq!['\n']) == stc);
}

/// The concatenated state blocks attach one field per state, in order.
proof fn lemma_state_blocks_run(st: StateV, ss: Seq<crate::state::StateV>)
    requires
        st is Run,
        !st->Run_comment,
        st->Run_mode is Idle,
        st->Run_stack.len() >= 2,
        st->Run_stack.last().key is None,
        forall|i: int|
            0 <= i < ss.len() ==> spec_wf_state(#[trigger] ss[i]) && (match ss[i].divisions {
                Some(ds) => ds.len() > 0,
                None => true,
            }),
    ensures
        spec_run(st, crate::state::spec_state_blocks(ss)) == (StateV::Run {
            stack: spec_with_state_fields(st->Run_stack, ss),
            mode: ModeV::Idle,
            comment: false,
        }),
    decreases ss.len(),
{
    let stack = st->Run_stack;
    if ss.len() == 0 {
        assert(st == StateV::Run { stack, mode: ModeV::Idle, comment: false });
        assert(spec_with_state_fields(stack, ss) =~~= stack) by {
            let m = ss.map_values(
                |x: crate::state::StateV| ElemV::Field(x.name, spec_state_value(x)),
            );
            assert(stack.last().elems + m =~= stack.last().elems);
        }
        assert(StateV::Run { stack: spec_with_state_fields(stack, ss), mode: ModeV::Idle, comment: false }
            =~~= st);
    } else {
        reveal_strlit("\n");
        let dl = ss.drop_last();
        assert(forall|i: int| 0 <= i < dl.len() ==> #[trigger] dl[i] == ss[i]);
        lemma_state_blocks_run(st, dl);
        assert(crate::state::spec_state_blocks(ss) =~= crate::state::spec_state_blocks(dl) + (
        crate::state::spec_state_to_pdx(ss.last()) + seq!['\n']));
        lemma_run_append(
            st,
            crate::state::spec_state_blocks(dl),
            crate::state::spec_state_to_pdx(ss.last()) + seq!['\n'],
        );
        let ws = spec_with_state_fields(stack, dl);
        let mid = StateV::Run { stack: ws, mode: ModeV::Idle, comment: false };
        assert(spec_run(st, crate::state::spec_state_blocks(dl)) == mid);
        assert(spec_resolve(mid) == Some(ws));
        assert(ws.last().key is None);
        assert(ws.len() == stack.len());
        lemma_state_block(mid, ss.last());
        lemma_state_fields_snoc(stack, dl, ss.last());
        assert(dl.push(ss.last()) =~= ss);
    }
}

/// Driving the state builder over the fields of the rendered wrapper
/// block stages every state back, with no diagnostics.
proof fn lemma_states_inner_fields(ss: Seq<crate::state::StateV>)
    requires
        forall|i: int|
            0 <= i < ss.len() ==> spec_wf_state(#[trigger] ss[i]) && (match ss[i].divisions {
                Some(ds) => ds.len() > 0,
                None => true,
            }),
    ensures
        crate::state::spec_states_inner(
            ss.map_values(
                |e: crate::state::StateV| (FieldV { key: e.name, val: spec_state_value(e) }),
            ),
        ) == Some((ss, Seq::<crate::logger::DiagV>::empty())),
    decreases ss.len(),
{
    let sfl = ss.map_values(
        |e: crate::state::StateV| (FieldV { key: e.name, val: spec_state_value(e) }),
    );
    if ss.len() == 0 {
        assert(sfl =~= Seq::<FieldV>::empty());
        assert(ss =~= Seq::<crate::state::StateV>::empty());
    } else {
        let dl = ss.drop_last();
        let e = ss.last();
        assert(forall|i: int| 0 <= i < dl.len() ==> #[trigger] dl[i] == ss[i]);
        lemma_states_inner_fields(dl);
        let dfl = dl.map_values(
            |x: crate::state::StateV| (FieldV { key: x.name, val: spec_state_value(x) }),
        );
        assert(sfl.drop_last() =~= dfl);
        assert(sfl.last() == (FieldV { key: e.name, val: spec_state_value(e) }));
        assert(crate::country_definition::spec_obj_fields(spec_state_value(e)) == Some(
            spec_state_field_list(e),
        )) by {
            if spec_state_field_list(e).len() == 0 {
                assert(spec_state_field_list(e) =~= Seq::<FieldV>::empty());
            }
        }
        lemma_state_build_fields(e);
        assert(crate::state::spec_state_entity(e.name, spec_state_field_list(e)) == (
            Some(e),
            Seq::<crate::logger::DiagV>::empty(),
        ));
        assert(dl.push(e) =~= ss);
        assert(Seq::<crate::logger::DiagV>::empty() + Seq::<crate::logger::DiagV>::empty()
            =~= Seq::<crate::logger::DiagV>::empty());
    }
}

/// Law: parsing the canonical serialization of a whole states file
/// yields exactly the same states, in order, with no diagnostics. A
/// state whose division list is present but empty renders the same as
/// one with no divisions at all, so the law asks for a non-empty list
/// when one is present.
#[verifier::rlimit(100)]
pub proof fn lemma_states_round_trip(ss: Seq<crate::state::StateV>)
    requires
        forall|i: int|
            0 <= i < ss.len() ==> spec_wf_state(#[trigger] ss[i]) && (match ss[i].divisions {
                Some(ds) => ds.len() > 0,
                None => true,
            }),
    ensures
        crate::state::spec_parse_states(crate::state::spec_states_file_to_pdx(ss)) == Some(
            (ss, Seq::<crate::logger::DiagV>::empty()),
        ),
{
    reveal_strlit("STATES = {\n");
    reveal_strlit("STATES");
    reveal_strlit(" = {\n");
    reveal_strlit("}");
    assert(spec_wf_word("STATES"@)) by {
        assert(forall|i: int| 0 <= i < "STATES"@.len() ==> spec_bare(#[trigger] "STATES"@[i]));
    }
    let text = crate::state::spec_states_file_to_pdx(ss);
    let blocks = crate::state::spec_state_blocks(ss);
    assert(text =~= ("STATES"@ + " = {\n"@) + (blocks + seq!['}']));
    let st0 = spec_init();
    let root0 = FrameV { header: None, key: None, elems: Seq::empty() };
    assert(spec_resolve(st0) == Some(seq![root0]));
    lemma_run_append(st0, "STATES"@ + " = {\n"@, blocks + seq!['}']);
    lemma_open_block(st0, "STATES"@);
    let s1 = spec_with_key(seq![root0], "STATES"@).push(
        FrameV { header: None, key: None, elems: Seq::empty() },
    );
    let st1 = StateV::Run { stack: s1, mode: ModeV::Idle, comment: false };
    assert(spec_run(st0, "STATES"@ + " = {\n"@) == st1);
    lemma_run_append(st1, blocks, seq!['}']);
    assert(s1.last().key is None);
    lemma_state_blocks_run(st1, ss);
    let s2 = spec_with_state_fields(s1, ss);
    let st2 = StateV::Run { stack: s2, mode: ModeV::Idle, comment: false };
    assert(spec_run(st1, blocks) == st2);
    assert(spec_resolve(st2) == Some(s2));
    assert(s2.len() == 2);
    assert(s2.last().key is None);
    let sfl = ss.map_values(
        |e: crate::state::StateV| (FieldV { key: e.name, val: spec_state_value(e) }),
    );
    let v = if ss.len() == 0 {
        ValueV::Absent
    } else {
        ValueV::Object(sfl)
    };
    let elems2 = s2.last().elems;
    assert(elems2 =~= ss.map_values(
        |e: crate::state::StateV| ElemV::Field(e.name, spec_state_value(e)),
    ));
    assert(spec_group_value(elems2) == Some(v)) by {
        if ss.len() == 0 {
            assert(elems2.len() == 0);
        } else {
            assert forall|i: int| 0 <= i < elems2.len() implies elems2[i] is Field by {
                assert(elems2[i] == ElemV::Field(ss[i].name, spec_state_value(ss[i])));
            }
            assert(spec_group_value(elems2) is Some);
            assert(spec_group_value(elems2)->0->Object_0 =~~= sfl) by {
                let got = spec_group_value(elems2)->0->Object_0;
                assert(got.len() == elems2.len());
                assert forall|i: int| 0 <= i < elems2.len() implies got[i] == sfl[i] by {
                    assert(elems2[i] == ElemV::Field(ss[i].name, spec_state_value(ss[i])));
                    assert(got[i] == (FieldV {
                        key: elems2[i]->Field_0,
                        val: elems2[i]->Field_1,
                    }));
                    assert(sfl[i] == (FieldV { key: ss[i].name, val: spec_state_value(ss[i]) }));
                }
            }
        }
    }
    assert(s2.last().header is None);
    assert(s2.drop_last() =~= spec_with_key(seq![root0], "STATES"@));
    assert(s2.drop_last().last().key == Some("STATES"@));
    assert(spec_close(s2) is Some);
    lemma_close_block(st2);
    let rootf = FrameV { header: None, key: None, elems: seq![ElemV::Field("STATES"@, v)] };
    assert(spec_close(s2)->0 =~~= seq![rootf]);
    let fin = StateV::Run { stack: seq![rootf], mode: ModeV::Idle, comment: false };
    assert(spec_run(st2, seq!['}']) == fin);
    assert(spec_run(st0, text) == fin);
    let pairs = crate::parser::spec_finish(fin);
    assert(pairs is Some && pairs->0 =~~= seq![("STATES"@, v)]) by {
        assert(rootf.elems[0] is Field);
        assert(forall|i: int| 0 <= i < rootf.elems.len() ==> rootf.elems[i] is Field);
        assert(crate::parser::spec_root_fields(rootf.elems) is Some);
        let got = crate::parser::spec_root_fields(rootf.elems)->0;
        assert(got.len() == 1);
        assert(got[0] == ("STATES"@, v));
    }
    let p = seq![("STATES"@, v)];
    assert(crate::parser::spec_parse_text(text) == Some(p)) by {
        assert(crate::parser::spec_finish(fin)->0 =~~= p);
    }
    lemma_states_inner_fields(ss);
    assert(crate::state::spec_states_drive(p) == Some(
        (ss, Seq::<crate::logger::DiagV>::empty()),
    )) by {
        assert(p.drop_last() =~= Seq::<(Seq<char>, ValueV)>::empty());
        assert(p.last() == ("STATES"@, v));
        assert(crate::state::spec_states_drive(Seq::<(Seq<char>, ValueV)>::empty()) == Some(
            (Seq::<crate::state::StateV>::empty(), Seq::<crate::logger::DiagV>::empty()),
        ));
        assert(crate::country_definition::spec_obj_fields(v) == Some(sfl)) by {
            if ss.len() == 0 {
                assert(sfl =~= Seq::<FieldV>::empty());
            }
        }
        assert(Seq::<crate::state::StateV>::empty() + ss =~= ss);
        assert(Seq::<crate::logger::DiagV>::empty() + Seq::<crate::logger::DiagV>::empty()
            =~= Seq::<crate::logger::DiagV>::empty());
    }
}

} // verus!
