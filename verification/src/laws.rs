//! The laws that hold across the pipeline's stages, stated over the spec
//! functions the stages' own contracts use.

use vstd::prelude::*;

use crate::error::ErrV;
use crate::ir::spec_gen;
use crate::ir::OpV;
use crate::seg::text_of;
use crate::syntax::spec_ast;
use crate::syntax::spec_nodes_of;
use crate::syntax::spec_lex;
use crate::syntax::spec_lex_main;
use crate::syntax::spec_unescape;
use crate::syntax::spec_is_char;
use crate::syntax::Token;
use crate::syntax::TokenType;
use crate::syntax::InnerV;
use crate::syntax::NodeV;
use crate::vm::step_spec;
use crate::vm::trace_n;
use crate::vm::StepRes;
use crate::vm::Trace;
use crate::vm::VmModel;

verus! {

/// A grapheme that plays no role in the directive syntax: not a block
/// marker and not an escape.
pub open spec fn plain_grapheme(g: Seq<char>) -> bool {
    !spec_is_char(g, '{') && !spec_is_char(g, '}') && !spec_is_char(g, '\\')
}

proof fn lemma_lex_plain(gs: Seq<Seq<char>>, i: int, lb: int, le: int, acc: Seq<Token>)
    requires
        gs.len() > 0,
        0 <= i <= gs.len(),
        forall|j: int| 0 <= j < gs.len() ==> plain_grapheme(#[trigger] gs[j]),
        i == 0 ==> le == 0,
        i > 0 ==> le == i - 1,
    ensures
        spec_lex_main(gs, i, false, lb, le, acc) == Ok::<Seq<Token>, ErrV>(
            acc.push(
                Token {
                    token_type: TokenType::Literal,
                    first_char: lb as usize,
                    end_char: gs.len() as usize,
                },
            ),
        ),
    decreases gs.len() - i,
{
    if i < gs.len() {
        lemma_lex_plain(gs, i + 1, lb, i, acc);
    }
}

proof fn lemma_unescape_plain(gs: Seq<Seq<char>>, i: int, hi: int)
    requires
        0 <= i <= hi <= gs.len(),
        forall|j: int| 0 <= j < gs.len() ==> !spec_is_char(#[trigger] gs[j], '\\'),
    ensures
        spec_unescape(gs, i, false, hi) == text_of(gs, i, hi),
    decreases hi - i,
{
    if i >= hi {
        assert(gs.subrange(i, hi) =~= Seq::<Seq<char>>::empty());
        assert(text_of(gs, i, hi) =~= Seq::<char>::empty());
    } else {
        lemma_unescape_plain(gs, i + 1, hi);
        assert(gs.subrange(i, hi) =~= seq![gs[i]] + gs.subrange(i + 1, hi));
        vstd::seq_lib::lemma_flatten_concat(seq![gs[i]], gs.subrange(i + 1, hi));
        seq![gs[i]].lemma_flatten_one_element();
        assert(text_of(gs, i, hi) == gs[i] + text_of(gs, i + 1, hi));
    }
}

/// Round-trip: a source without directive blocks (no block markers, no
/// escapes) compiles to one constant push and one flush, and a fresh machine
/// renders exactly the source text: the concatenation of its graphemes,
/// every one preserved.
#[verifier::rlimit(100)]
#[verifier::spinoff_prover]
pub proof fn lemma_literal_round_trip(gs: Seq<Seq<char>>, m: VmModel)
    requires
        0 < gs.len() < usize::MAX,
        forall|j: int| 0 <= j < gs.len() ==> plain_grapheme(#[trigger] gs[j]),
        m.pc == 0,
        m.stack == Seq::<Seq<char>>::empty(),
    ensures
        ({
            let nodes = spec_ast(gs);
            &&& nodes matches Ok(ns)
            &&& spec_gen(gs, ns, 0, Seq::empty(), None, Seq::empty()) matches Ok(prog)
            &&& trace_n(prog, m, 3) matches Trace::Halted { m: mh, out }
            &&& out == text_of(gs, 0, gs.len() as int)
        }),
{
    let glen = gs.len() as int;
    // the lexer yields one literal token over the whole text
    lemma_lex_plain(gs, 0, 0, 0, Seq::empty());
    let tok = Token {
        token_type: TokenType::Literal,
        first_char: 0usize,
        end_char: gs.len() as usize,
    };
    let toks = Seq::<Token>::empty().push(tok);
    assert(spec_lex(gs) == Ok::<Seq<Token>, ErrV>(toks));
    // one literal node
    let node = NodeV { first_char: 0, end_char: glen, inner: InnerV::Literal };
    let nodes0 = Seq::<NodeV>::empty().push(node);
    assert(crate::syntax::spec_nodes_of(gs, toks, 0, Seq::empty()) == Ok::<Seq<NodeV>, ErrV>(
        nodes0,
    )) by {
        assert(toks[0] == tok);
        assert(spec_nodes_of(gs, toks, 1, Seq::<NodeV>::empty().push(node)) == Ok::<
            Seq<NodeV>,
            ErrV,
        >(nodes0));
    }
    assert(crate::syntax::spec_expand(gs, nodes0, 0, Map::empty(), Seq::empty()) == Ok::<
        Seq<NodeV>,
        ErrV,
    >(nodes0)) by {
        assert(nodes0[0] == node);
        assert(Seq::<NodeV>::empty() + nodes0 =~= nodes0);
        assert(crate::syntax::spec_expand(gs, nodes0, 1, Map::empty(), Seq::<NodeV>::empty().push(
            node,
        )) == Ok::<Seq<NodeV>, ErrV>(nodes0));
    }
    assert(spec_ast(gs) == Ok::<Seq<NodeV>, ErrV>(nodes0));
    // the generator emits a push of the unescaped text and a flush
    lemma_unescape_plain(gs, 0, glen);
    let text = text_of(gs, 0, glen);
    let prog = Seq::<OpV>::empty() + seq![OpV::PutStr { value: text }, OpV::Flush];
    assert(spec_gen(gs, nodes0, 0, Seq::empty(), None, Seq::empty()) == Ok::<Seq<OpV>, ErrV>(
        prog,
    )) by {
        assert(nodes0[0] == node);
        assert(spec_unescape(gs, 0, false, glen) == text);
        let ops1 = Seq::<OpV>::empty() + seq![
            OpV::PutStr { value: spec_unescape(gs, 0, false, glen) },
            OpV::Flush,
        ];
        assert(ops1 =~= prog);
        assert(spec_gen(gs, nodes0, 1, ops1, None, Seq::empty()) == Ok::<Seq<OpV>, ErrV>(ops1));
    }
    // the machine pushes the text, flushes it, and halts
    let m1 = VmModel { pc: 1, stack: m.stack.push(text), ..m };
    assert(step_spec(prog, m) == (StepRes::Next { m: m1, out: Seq::<char>::empty() }));
    let m2 = VmModel { pc: 2, stack: Seq::empty(), ..m1 };
    assert(step_spec(prog, m1) == (StepRes::Next { m: m2, out: m1.stack.flatten() }));
    assert(m1.stack =~= seq![text]);
    seq![text].lemma_flatten_one_element();
    assert(step_spec(prog, m2) == StepRes::Halt);
    assert(trace_n(prog, m, 0) == (Trace::Running { m, out: Seq::<char>::empty() }));
    assert(trace_n(prog, m, 1) == (Trace::Running {
        m: m1,
        out: Seq::<char>::empty() + Seq::<char>::empty(),
    }));
    assert(trace_n(prog, m, 2) == (Trace::Running {
        m: m2,
        out: (Seq::<char>::empty() + Seq::<char>::empty()) + text,
    }));
    assert(trace_n(prog, m, 3) == (Trace::Halted {
        m: m2,
        out: (Seq::<char>::empty() + Seq::<char>::empty()) + text,
    }));
    assert((Seq::<char>::empty() + Seq::<char>::empty()) + text =~= text);
}

/// Slice clamping: a window starting at or past the value's grapheme count
/// yields the empty string, never a fault; an end past the count is the same
/// as no end at all, so the window is clipped to the value.
pub proof fn lemma_slice_clamping(val: Seq<char>, start: usize, end: usize)
    ensures
        start >= crate::seg::graphemes_of(val).len() ==> crate::vm::spec_slice(
            val,
            Some(start),
            Some(end),
        ) == Seq::<char>::empty(),
        end as int >= crate::seg::graphemes_of(val).len() ==> crate::vm::spec_slice(
            val,
            Some(start),
            Some(end),
        ) == crate::vm::spec_slice(val, Some(start), None),
{
}

/// Flush ordering: pushing `a`, `b`, `c` and flushing writes `abc`: the
/// items leave in push order, not in reverse.
pub proof fn lemma_flush_order(a: Seq<char>, b: Seq<char>, c: Seq<char>, m: VmModel)
    requires
        m.pc == 0,
        m.stack == Seq::<Seq<char>>::empty(),
    ensures
        ({
            let prog = seq![
                OpV::PutStr { value: a },
                OpV::PutStr { value: b },
                OpV::PutStr { value: c },
                OpV::Flush,
            ];
            &&& trace_n(prog, m, 5) matches Trace::Halted { m: mh, out }
            &&& out == a + b + c
        }),
{
    let prog = seq![
        OpV::PutStr { value: a },
        OpV::PutStr { value: b },
        OpV::PutStr { value: c },
        OpV::Flush,
    ];
    let e = Seq::<char>::empty();
    let m1 = VmModel { pc: 1, stack: m.stack.push(a), ..m };
    let m2 = VmModel { pc: 2, stack: m1.stack.push(b), ..m1 };
    let m3 = VmModel { pc: 3, stack: m2.stack.push(c), ..m2 };
    let m4 = VmModel { pc: 4, stack: Seq::empty(), ..m3 };
    assert(step_spec(prog, m) == (StepRes::Next { m: m1, out: e }));
    assert(step_spec(prog, m1) == (StepRes::Next { m: m2, out: e }));
    assert(step_spec(prog, m2) == (StepRes::Next { m: m3, out: e }));
    assert(step_spec(prog, m3) == (StepRes::Next { m: m4, out: m3.stack.flatten() }));
    assert(step_spec(prog, m4) == StepRes::Halt);
    assert(m3.stack =~= seq![a, b, c]);
    assert(seq![a, b, c].drop_first() =~= seq![b, c]);
    assert(seq![b, c].drop_first() =~= seq![c]);
    assert(seq![c].drop_first() =~= Seq::<Seq<char>>::empty());
    assert(seq![a, b, c].flatten() == a + seq![b, c].flatten()) by {
        reveal_with_fuel(Seq::flatten, 2);
    }
    assert(seq![b, c].flatten() == b + seq![c].flatten()) by {
        reveal_with_fuel(Seq::flatten, 2);
    }
    assert(seq![c].flatten() == c + Seq::<Seq<char>>::empty().flatten()) by {
        reveal_with_fuel(Seq::flatten, 2);
    }
    assert(Seq::<Seq<char>>::empty().flatten() == e) by {
        reveal_with_fuel(Seq::flatten, 1);
    }
    assert(m3.stack.flatten() =~= a + b + c);
    assert(trace_n(prog, m, 0) == (Trace::Running { m, out: e }));
    assert(trace_n(prog, m, 1) == (Trace::Running { m: m1, out: e + e }));
    assert(trace_n(prog, m, 2) == (Trace::Running { m: m2, out: (e + e) + e }));
    assert(trace_n(prog, m, 3) == (Trace::Running { m: m3, out: ((e + e) + e) + e }));
    assert(trace_n(prog, m, 4) == (Trace::Running {
        m: m4,
        out: (((e + e) + e) + e) + m3.stack.flatten(),
    }));
    assert(trace_n(prog, m, 5) == (Trace::Halted {
        m: m4,
        out: (((e + e) + e) + e) + m3.stack.flatten(),
    }));
    assert((((e + e) + e) + e) + m3.stack.flatten() =~= a + b + c);
}

} // verus!
