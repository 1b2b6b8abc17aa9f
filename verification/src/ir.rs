//! The linear bytecode: opcodes, name classification, and the generator that
//! walks the parsed nodes and emits instructions with patched jump targets.

use vstd::prelude::*;

use crate::error::CompileError;
use crate::error::ErrV;
use crate::error::array_pipe_err;
use crate::error::invalid_array_err;
use crate::error::pipe_no_parent_err;
use crate::error::syntax_err;
use crate::error::type_err;
use crate::error::undefined_var_err;
use crate::seg::graphemes_of;
use crate::seg::split_graphemes;
use crate::seg::text_of;
use crate::syntax::ChildKind;
use crate::syntax::InnerNode;
use crate::syntax::InnerV;
use crate::syntax::Node;
use crate::syntax::NodeV;
use crate::syntax::StrChild;
use crate::syntax::TokenType;
use crate::syntax::node_span_wf;
use crate::syntax::spec_unescape;
use crate::syntax::unescape_range;

verus! {

/// One instruction of the virtual machine.
#[derive(Debug, Clone)]
pub enum Op {
    /// Push a constant string onto the operand stack.
    PutStr { value: String },
    /// Drain the stack in push order into the output.
    Flush,
    /// Drain the stack in push order into one concatenated string, and push it.
    Collapse,
    /// Push a variable's value, sliced to the given grapheme window.
    PutName { start: Option<usize>, end: Option<usize>, name: String },
    /// Set the counter register.
    SetCounter { value: usize },
    /// Increment the counter register.
    IncCounter,
    /// Push the counter register's decimal text.
    LoadCounter,
    /// Jump to `op_index` while the counter is below the clamped bound.
    CmpCounterLessJmp { op_index: usize, value: Option<usize>, name: String },
    /// Jump to `op_index` when the array's clamped iteration window is empty.
    CmpArrayEmptyJmp { op_index: usize, start: Option<usize>, end: Option<usize>, name: String },
    /// Push the array item the counter selects.
    LoadArrayItem { name: String },
    /// Pop one value and bind it in the scope.
    PutScopeVar { name: String },
    /// Erase all scope bindings.
    DestroyScope,
}

/// The mathematical value of an `Op`.
pub ghost enum OpV {
    PutStr { value: Seq<char> },
    Flush,
    Collapse,
    PutName { start: Option<usize>, end: Option<usize>, name: Seq<char> },
    SetCounter { value: usize },
    IncCounter,
    LoadCounter,
    CmpCounterLessJmp { op_index: usize, value: Option<usize>, name: Seq<char> },
    CmpArrayEmptyJmp { op_index: usize, start: Option<usize>, end: Option<usize>, name: Seq<char> },
    LoadArrayItem { name: Seq<char> },
    PutScopeVar { name: Seq<char> },
    DestroyScope,
}

impl View for Op {
    type V = OpV;

    open spec fn view(&self) -> OpV {
        match self {
            Op::PutStr { value } => OpV::PutStr { value: value@ },
            Op::Flush => OpV::Flush,
            Op::Collapse => OpV::Collapse,
            Op::PutName { start, end, name } => OpV::PutName {
                start: *start,
                end: *end,
                name: name@,
            },
            Op::SetCounter { value } => OpV::SetCounter { value: *value },
            Op::IncCounter => OpV::IncCounter,
            Op::LoadCounter => OpV::LoadCounter,
            Op::CmpCounterLessJmp { op_index, value, name } => OpV::CmpCounterLessJmp {
                op_index: *op_index,
                value: *value,
                name: name@,
            },
            Op::CmpArrayEmptyJmp { op_index, start, end, name } => OpV::CmpArrayEmptyJmp {
                op_index: *op_index,
                start: *start,
                end: *end,
                name: name@,
            },
            Op::LoadArrayItem { name } => OpV::LoadArrayItem { name: name@ },
            Op::PutScopeVar { name } => OpV::PutScopeVar { name: name@ },
            Op::DestroyScope => OpV::DestroyScope,
        }
    }
}

impl DeepView for Op {
    type V = OpV;

    open spec fn deep_view(&self) -> OpV {
        self@
    }
}

/// The node kinds a pipe's sides can have, for type-mismatch diagnostics.
#[derive(Debug, PartialEq, Eq, Structural, Copy, Clone)]
pub enum Type {
    String,
    Int,
    Array,
    Literal,
    Name,
}

/// A reserved name starts with the reservation marker: only the generator
/// itself may bind such names in the scope.
pub open spec fn spec_is_reserved(name: Seq<char>) -> bool {
    name.len() > 0 && name[0] == '_'
}

/// Whether `name` is usable only as an internally bound scope variable.
pub fn is_name_reserved(name: &str) -> (r: bool)
    ensures
        r == spec_is_reserved(name@),
{
    name.unicode_len() > 0 && name.get_char(0) == '_'
}

/// An array name is composed entirely of the uppercase letters `A` to `Z`;
/// names reaching this point are ASCII, which the lexer enforces. The empty
/// name counts as one vacuously.
pub open spec fn spec_is_array_name(name: Seq<char>) -> bool {
    forall|i: int| 0 <= i < name.len() ==> 'A' <= #[trigger] name[i] <= 'Z'
}

/// Whether `name` denotes a true array (all uppercase) rather than a sliced
/// string variable.
pub fn is_name_array(name: &str) -> (r: bool)
    ensures
        r == spec_is_array_name(name@),
{
    let n = name.unicode_len();
    let mut i: usize = 0;
    while i < n
        invariant
            i <= n == name@.len(),
            forall|j: int| 0 <= j < i ==> 'A' <= #[trigger] name@[j] <= 'Z',
        decreases n - i,
    {
        let c = name.get_char(i);
        if c < 'A' || c > 'Z' {
            return false;
        }
        i += 1;
    }
    true
}

/// The reserved scope name a pipe binds its value to.
pub open spec fn underscore_name() -> Seq<char> {
    seq!['_']
}

/// The reserved scope name bound to the current array item.
pub open spec fn item_name() -> Seq<char> {
    seq!['_', 'i', 't', 'e', 'm', '_']
}

/// The reserved scope name bound to the current iteration index.
pub open spec fn index_name() -> Seq<char> {
    seq!['_', 'i', 'n', 'd', 'e', 'x', '_']
}

fn underscore_string() -> (r: String)
    ensures
        r@ == underscore_name(),
{
    let s = String::from_str("_");
    proof {
        reveal_strlit("_");
        assert(s@ =~= seq!['_']);
    }
    s
}

fn item_string() -> (r: String)
    ensures
        r@ == item_name(),
{
    let s = String::from_str("_item_");
    proof {
        reveal_strlit("_item_");
        assert(s@ =~= seq!['_', 'i', 't', 'e', 'm', '_']);
    }
    s
}

fn index_string() -> (r: String)
    ensures
        r@ == index_name(),
{
    let s = String::from_str("_index_");
    proof {
        reveal_strlit("_index_");
        assert(s@ =~= seq!['_', 'i', 'n', 'd', 'e', 'x', '_']);
    }
    s
}

/// Whether the value at `i` is piped: the next node, skipping newlines, is a
/// pipe.
pub open spec fn spec_is_pipe(nodes: Seq<NodeV>, i: int) -> bool
    decreases nodes.len() - i,
{
    if i >= nodes.len() {
        false
    } else {
        match nodes[i].inner {
            InnerV::Pipe => true,
            InnerV::NewLine => spec_is_pipe(nodes, i + 1),
            _ => false,
        }
    }
}

fn is_node_pipe(nodes: &Vec<Node>, i: usize) -> (r: bool)
    ensures
        r == spec_is_pipe(nodes.deep_view(), i as int),
{
    let ghost nv = nodes.deep_view();
    let mut j = i;
    while j < nodes.len()
        invariant
            i <= j,
            nv == nodes.deep_view(),
            spec_is_pipe(nv, i as int) == spec_is_pipe(nv, j as int),
        decreases nodes.len() - j,
    {
        proof {
            assert(nv[j as int] == nodes@[j as int]@);
        }
        match &nodes[j].inner {
            InnerNode::Pipe => {
                return true;
            },
            InnerNode::NewLine => {
                j += 1;
            },
            _ => {
                return false;
            },
        }
    }
    false
}

/// What a pipe's right-hand side must resolve to: the next node, skipping
/// newlines, must be a string; any other kind is a type error; a stray pipe
/// has no parent; running out expects a string token. The grammar places no
/// macro marker here; one left over is an unexpected token.
pub open spec fn spec_expect_string(nodes: Seq<NodeV>, i: int) -> Result<(), ErrV>
    decreases nodes.len() - i,
{
    if i >= nodes.len() {
        Err(syntax_err(nodes[i - 1].first_char, seq![TokenType::String]))
    } else {
        match nodes[i].inner {
            InnerV::String { .. } => Ok(()),
            InnerV::Int { .. } => Err(type_err(nodes[i].first_char, Type::String, Type::Int)),
            InnerV::Range { .. } => Err(type_err(nodes[i].first_char, Type::String, Type::Array)),
            InnerV::Array { .. } => Err(type_err(nodes[i].first_char, Type::String, Type::Array)),
            InnerV::Literal => Err(type_err(nodes[i].first_char, Type::String, Type::Literal)),
            InnerV::Name => Err(type_err(nodes[i].first_char, Type::String, Type::Name)),
            InnerV::Pipe => Err(pipe_no_parent_err(nodes[i].first_char)),
            InnerV::NewLine => spec_expect_string(nodes, i + 1),
            InnerV::MacroDef => Err(syntax_err(nodes[i].first_char, Seq::empty())),
            InnerV::MacroExp => Err(syntax_err(nodes[i].first_char, Seq::empty())),
        }
    }
}

fn expect_string(nodes: &Vec<Node>, i: usize) -> (r: Result<(), CompileError>)
    requires
        1 <= i <= nodes@.len(),
    ensures
        (match r {
            Ok(()) => spec_expect_string(nodes.deep_view(), i as int) == Ok::<(), ErrV>(()),
            Err(e) => spec_expect_string(nodes.deep_view(), i as int) == Err::<(), ErrV>(e@),
        }),
{
    let ghost nv = nodes.deep_view();
    let mut j = i;
    while j < nodes.len()
        invariant
            1 <= i <= j <= nodes@.len(),
            nv == nodes.deep_view(),
            spec_expect_string(nv, i as int) == spec_expect_string(nv, j as int),
        decreases nodes.len() - j,
    {
        proof {
            assert(nv[j as int] == nodes@[j as int]@);
        }
        match &nodes[j].inner {
            InnerNode::String { .. } => {
                return Ok(());
            },
            InnerNode::Int { .. } => {
                return Err(CompileError::new_type_error(nodes[j].first_char, Type::String, Type::Int));
            },
            InnerNode::Range { .. } => {
                return Err(
                    CompileError::new_type_error(nodes[j].first_char, Type::String, Type::Array),
                );
            },
            InnerNode::Array { .. } => {
                return Err(
                    CompileError::new_type_error(nodes[j].first_char, Type::String, Type::Array),
                );
            },
            InnerNode::Literal => {
                return Err(
                    CompileError::new_type_error(nodes[j].first_char, Type::String, Type::Literal),
                );
            },
            InnerNode::Name => {
                return Err(
                    CompileError::new_type_error(nodes[j].first_char, Type::String, Type::Name),
                );
            },
            InnerNode::Pipe => {
                return Err(CompileError::new_pipe_no_parent(nodes[j].first_char));
            },
            InnerNode::NewLine => {
                j += 1;
            },
            InnerNode::MacroDef => {
                let none = Vec::new();
                return Err(CompileError::new_syntax(nodes[j].first_char, none.as_slice()));
            },
            InnerNode::MacroExp => {
                let none = Vec::new();
                return Err(CompileError::new_syntax(nodes[j].first_char, none.as_slice()));
            },
        }
    }
    let last = nodes.len() - 1;
    proof {
        assert(nv[last as int] == nodes@[last as int]@);
    }
    let one = one_string_type();
    Err(CompileError::new_syntax(nodes[last].first_char, one.as_slice()))
}

fn one_string_type() -> (r: Vec<TokenType>)
    ensures
        r@ == seq![TokenType::String],
{
    let mut v: Vec<TokenType> = Vec::new();
    v.push(TokenType::String);
    proof {
        assert(v@ =~= seq![TokenType::String]);
    }
    v
}

fn scope_contains(scope: &Vec<String>, name: &String) -> (r: bool)
    ensures
        r == scope.deep_view().contains(name@),
{
    let ghost sv = scope.deep_view();
    let mut k: usize = 0;
    while k < scope.len()
        invariant
            k <= scope.len(),
            sv == scope.deep_view(),
            forall|q: int| 0 <= q < k ==> sv[q] != name@,
        decreases scope.len() - k,
    {
        proof {
            assert(sv[k as int] == scope@[k as int]@);
        }
        if scope[k].eq(name) {
            return true;
        }
        k += 1;
    }
    false
}

/// The instructions for the children of one interpolated string: a constant
/// push for each text run, a variable fetch for each `$(name)` site. A
/// reserved name is accepted only while the scope holds it.
pub open spec fn spec_children_ops(
    gs: Seq<Seq<char>>,
    children: Seq<StrChild>,
    scope: Seq<Seq<char>>,
    k: int,
    acc: Seq<OpV>,
) -> Result<Seq<OpV>, ErrV>
    decreases children.len() - k,
{
    if k >= children.len() {
        Ok(acc)
    } else {
        let c = children[k];
        match c.kind {
            ChildKind::Name => {
                let ce = if c.end_char < c.first_char {
                    c.first_char
                } else {
                    c.end_char
                };
                let name = text_of(gs, c.first_char as int, ce as int);
                if !scope.contains(name) && spec_is_reserved(name) {
                    Err(undefined_var_err(c.first_char as int, name))
                } else {
                    spec_children_ops(
                        gs,
                        children,
                        scope,
                        k + 1,
                        acc.push(OpV::PutName { start: None, end: None, name }),
                    )
                }
            },
            ChildKind::Literal => spec_children_ops(
                gs,
                children,
                scope,
                k + 1,
                acc.push(
                    OpV::PutStr {
                        value: spec_unescape(gs, c.first_char as int, false, c.end_char as int),
                    },
                ),
            ),
        }
    }
}

/// An index advanced by one, wrapping at the machine word as the jump-target
/// arithmetic does.
pub open spec fn spec_inc_idx(x: int) -> usize {
    if 0 <= x < usize::MAX {
        (x + 1) as usize
    } else {
        0usize
    }
}

/// The whole code generator, one node at a time. `mark` is the pending open
/// loop: the node of its array and the instruction index of its entry jump,
/// patched when the loop body's string closes. `scope` is the set of
/// reserved names the generator has bound so far.
pub open spec fn spec_gen(
    gs: Seq<Seq<char>>,
    nodes: Seq<NodeV>,
    i: int,
    ops: Seq<OpV>,
    mark: Option<(usize, usize)>,
    scope: Seq<Seq<char>>,
) -> Result<Seq<OpV>, ErrV>
    decreases nodes.len() - i,
{
    if i >= nodes.len() {
        Ok(ops)
    } else {
        let n = nodes[i];
        match n.inner {
            InnerV::Literal => spec_gen(
                gs,
                nodes,
                i + 1,
                ops + seq![
                    OpV::PutStr {
                        value: spec_unescape(gs, n.first_char, false, n.end_char),
                    },
                    OpV::Flush,
                ],
                mark,
                scope,
            ),
            InnerV::Int { .. } => {
                let ops1 = ops.push(OpV::PutStr { value: text_of(gs, n.first_char, n.end_char) });
                if spec_is_pipe(nodes, i + 1) {
                    match spec_expect_string(nodes, i + 2) {
                        Err(e) => Err(e),
                        Ok(()) => spec_gen(
                            gs,
                            nodes,
                            i + 2,
                            ops1.push(OpV::PutScopeVar { name: underscore_name() }),
                            mark,
                            scope.push(underscore_name()),
                        ),
                    }
                } else {
                    spec_gen(gs, nodes, i + 1, ops1.push(OpV::Flush), mark, scope)
                }
            },
            InnerV::Name => {
                let name = text_of(gs, n.first_char, n.end_char);
                if spec_is_reserved(name) {
                    Err(undefined_var_err(n.first_char, name))
                } else {
                    let ops1 = ops.push(OpV::PutName { start: None, end: None, name });
                    if spec_is_pipe(nodes, i + 1) {
                        match spec_expect_string(nodes, i + 2) {
                            Err(e) => Err(e),
                            Ok(()) => spec_gen(
                                gs,
                                nodes,
                                i + 2,
                                ops1.push(OpV::PutScopeVar { name: underscore_name() }),
                                mark,
                                scope.push(underscore_name()),
                            ),
                        }
                    } else {
                        spec_gen(gs, nodes, i + 1, ops1.push(OpV::Flush), mark, scope)
                    }
                }
            },
            InnerV::Array { name, start, end } => {
                if spec_is_array_name(name) {
                    let ops1 = ops + seq![
                        OpV::SetCounter {
                            value: (match start {
                                Some(s) => s,
                                None => 0usize,
                            }),
                        },
                        OpV::CmpArrayEmptyJmp { op_index: 0, start, end, name },
                        OpV::LoadArrayItem { name },
                        OpV::PutScopeVar { name: item_name() },
                        OpV::LoadCounter,
                        OpV::PutScopeVar { name: index_name() },
                    ];
                    let mark1 = Some((i as usize, spec_inc_idx(ops.len() as int)));
                    let scope1 = scope.push(item_name()).push(index_name());
                    if !spec_is_pipe(nodes, i + 1) {
                        Err(array_pipe_err(n.first_char))
                    } else {
                        match spec_expect_string(nodes, i + 2) {
                            Err(e) => Err(e),
                            Ok(()) => spec_gen(gs, nodes, i + 2, ops1, mark1, scope1),
                        }
                    }
                } else {
                    let ops1 = ops.push(OpV::PutName { start, end, name });
                    if !scope.contains(name) && spec_is_reserved(name) {
                        Err(undefined_var_err(n.first_char, name))
                    } else {
                        if spec_is_pipe(nodes, i + 1) {
                            match spec_expect_string(nodes, i + 2) {
                                Err(e) => Err(e),
                                Ok(()) => spec_gen(
                                    gs,
                                    nodes,
                                    i + 2,
                                    ops1.push(OpV::PutScopeVar { name: underscore_name() }),
                                    mark,
                                    scope.push(underscore_name()),
                                ),
                            }
                        } else {
                            spec_gen(gs, nodes, i + 1, ops1.push(OpV::Flush), mark, scope)
                        }
                    }
                }
            },
            InnerV::String { children } => {
                match spec_children_ops(gs, children, scope, 0, Seq::empty()) {
                    Err(e) => Err(e),
                    Ok(cops) => {
                        let ops1 = ops + cops + seq![OpV::Collapse];
                        if spec_is_pipe(nodes, i + 1) {
                            match spec_expect_string(nodes, i + 2) {
                                Err(e) => Err(e),
                                Ok(()) => spec_gen(
                                    gs,
                                    nodes,
                                    i + 2,
                                    ops1.push(OpV::PutScopeVar { name: underscore_name() }),
                                    mark,
                                    scope.push(underscore_name()),
                                ),
                            }
                        } else {
                            let ops2 = ops1 + seq![OpV::Flush, OpV::DestroyScope];
                            match mark {
                                Some((node_i, op_i)) => {
                                    let target = spec_inc_idx(ops2.len() as int);
                                    let ops3 = (match ops2[op_i as int] {
                                        OpV::CmpArrayEmptyJmp { start, end, name, .. } => ops2
                                            .update(
                                            op_i as int,
                                            OpV::CmpArrayEmptyJmp {
                                                op_index: target,
                                                start,
                                                end,
                                                name,
                                            },
                                        ),
                                        _ => ops2,
                                    });
                                    match nodes[node_i as int].inner {
                                        InnerV::Array { name: aname, end: aend, .. } => spec_gen(
                                            gs,
                                            nodes,
                                            i + 1,
                                            ops3 + seq![
                                                OpV::IncCounter,
                                                OpV::CmpCounterLessJmp {
                                                    op_index: op_i,
                                                    value: aend,
                                                    name: aname,
                                                },
                                            ],
                                            None,
                                            Seq::empty(),
                                        ),
                                        _ => spec_gen(gs, nodes, i + 1, ops3, None, Seq::empty()),
                                    }
                                },
                                None => spec_gen(gs, nodes, i + 1, ops2, mark, scope),
                            }
                        }
                    },
                }
            },
            InnerV::NewLine => spec_gen(gs, nodes, i + 1, ops, mark, scope),
            InnerV::Pipe => Err(pipe_no_parent_err(n.first_char)),
            InnerV::Range { .. } => Err(invalid_array_err(n.first_char)),
            InnerV::MacroDef => Err(syntax_err(n.first_char, Seq::empty())),
            InnerV::MacroExp => Err(syntax_err(n.first_char, Seq::empty())),
        }
    }
}



/// The generator's Array step: a true (all-uppercase) array opens a loop and
/// must be piped; any other name is a sliced variable fetch.
fn gen_array(
    gs: &Vec<String>,
    ast: &Vec<Node>,
    i: usize,
    ops: &mut Vec<Op>,
    mark: &mut Option<(usize, usize)>,
    scope: &mut Vec<String>,
) -> (r: Result<usize, CompileError>)
    requires
        i < ast@.len(),
        ast.deep_view()[i as int].inner is Array,
        (*old(mark) matches Some((node_i, op_i)) ==> node_i < ast@.len() && op_i < old(
            ops,
        ).deep_view().len()),
    ensures
        (match r {
            Ok(ni) => spec_gen(
                gs.deep_view(),
                ast.deep_view(),
                i as int,
                old(ops).deep_view(),
                *old(mark),
                old(scope).deep_view(),
            ) == spec_gen(
                gs.deep_view(),
                ast.deep_view(),
                ni as int,
                final(ops).deep_view(),
                *final(mark),
                final(scope).deep_view(),
            ) && i < ni <= ast@.len() && (*final(mark) matches Some((node_i, op_i)) ==> node_i
                < ast@.len() && op_i < final(ops).deep_view().len()),
            Err(e) => spec_gen(
                gs.deep_view(),
                ast.deep_view(),
                i as int,
                old(ops).deep_view(),
                *old(mark),
                old(scope).deep_view(),
            ) == Err::<Seq<OpV>, ErrV>(e@),
        }),
{
    let ghost gsv = gs.deep_view();
    let ghost nv = ast.deep_view();
    let ghost ops_pre = ops.deep_view();
    let ghost scope_pre = scope.deep_view();
    let ghost mark_pre = *mark;
    let alen = ast.len();
    proof {
        assert(nv[i as int] == ast@[i as int]@);
    }
    let n_first = ast[i].first_char;
    let (name, start, end) = match &ast[i].inner {
        InnerNode::Array { name, start, end } => (name.clone(), *start, *end),
        _ => {
            proof {
                assert(false);
            }
            (String::new(), None, None)
        },
    };
    if is_name_array(name.as_str()) {
        let sc = match start {
            Some(s) => s,
            None => 0,
        };
        ops.push(Op::SetCounter { value: sc });
        ops.push(Op::CmpArrayEmptyJmp { op_index: 0, start, end, name: name.clone() });
        *mark = Some((i, ops.len() - 1));
        ops.push(Op::LoadArrayItem { name: name.clone() });
        ops.push(Op::PutScopeVar { name: item_string() });
        ops.push(Op::LoadCounter);
        ops.push(Op::PutScopeVar { name: index_string() });
        scope.push(item_string());
        scope.push(index_string());
        proof {
            assert(scope.deep_view() =~= scope_pre.push(item_name()).push(index_name()));
            assert(ops.deep_view() =~= ops_pre + seq![
                OpV::SetCounter {
                    value: (match start {
                        Some(s) => s,
                        None => 0usize,
                    }),
                },
                OpV::CmpArrayEmptyJmp { op_index: 0, start, end, name: name@ },
                OpV::LoadArrayItem { name: name@ },
                OpV::PutScopeVar { name: item_name() },
                OpV::LoadCounter,
                OpV::PutScopeVar { name: index_name() },
            ]);
        }
        if !is_node_pipe(ast, i + 1) {
            return Err(CompileError::new_array_pipe(n_first));
        }
        proof {
            assert(i + 1 < nv.len());
        }
        match expect_string(ast, i + 2) {
            Ok(()) => {
                proof {
                    assert(sc == (match start {
                        Some(s) => s,
                        None => 0usize,
                    }));
                    lemma_gen_array_step(
                        gsv,
                        nv,
                        i as int,
                        ops_pre,
                        mark_pre,
                        scope_pre,
                        name@,
                        start,
                        end,
                        ops.deep_view(),
                        *mark,
                        scope.deep_view(),
                    );
                    assert(*mark == Some((i as usize, spec_inc_idx(ops_pre.len() as int))));
                    assert(spec_gen(gsv, nv, i as int, ops_pre, mark_pre, scope_pre) == spec_gen(
                        gsv,
                        nv,
                        (i + 2) as int,
                        ops.deep_view(),
                        *mark,
                        scope.deep_view(),
                    ));
                }
                return Ok(i + 2);
            },
            Err(e) => {
                return Err(e);
            },
        }
    } else {
        ops.push(Op::PutName { start, end, name: name.clone() });
        proof {
            assert(ops.deep_view() =~= ops_pre.push(OpV::PutName { start, end, name: name@ }));
        }
        if !scope_contains(scope, &name) && is_name_reserved(name.as_str()) {
            return Err(CompileError::new_undefined_var(n_first, name));
        }
        if is_node_pipe(ast, i + 1) {
            proof {
                assert(i + 1 < nv.len());
            }
            match expect_string(ast, i + 2) {
                Ok(()) => {
                    ops.push(Op::PutScopeVar { name: underscore_string() });
                    scope.push(underscore_string());
                    proof {
                        assert(scope.deep_view() =~= scope_pre.push(underscore_name()));
                        assert(ops.deep_view() =~= ops_pre.push(
                            OpV::PutName { start, end, name: name@ },
                        ).push(OpV::PutScopeVar { name: underscore_name() }));
                    }
                    return Ok(i + 2);
                },
                Err(e) => {
                return Err(e);
            },
            }
        } else {
            ops.push(Op::Flush);
            proof {
                assert(ops.deep_view() =~= ops_pre.push(
                    OpV::PutName { start, end, name: name@ },
                ).push(OpV::Flush));
            }
            return Ok(i + 1);
        }
    }
}

/// Compiles source text all the way to the instruction program: parsing,
/// macro resolution and code generation in one call. The parser's output is
/// well-formed, which is what `gen_ir` asks of its callers.
pub fn compile(code: &str) -> (r: Result<Vec<Op>, CompileError>)
    ensures
        (match r {
            Ok(ops) => (exists|ns: Seq<NodeV>|
                crate::syntax::spec_ast(graphemes_of(code@)) == Ok::<Seq<NodeV>, ErrV>(ns)
                    && #[trigger] spec_gen(
                    graphemes_of(code@),
                    ns,
                    0,
                    Seq::empty(),
                    None,
                    Seq::empty(),
                ) == Ok::<Seq<OpV>, ErrV>(ops.deep_view())),
            Err(e) => crate::syntax::spec_ast(graphemes_of(code@)) == Err::<Seq<NodeV>, ErrV>(e@)
                || (exists|ns: Seq<NodeV>|
                crate::syntax::spec_ast(graphemes_of(code@)) == Ok::<Seq<NodeV>, ErrV>(ns)
                    && #[trigger] spec_gen(
                    graphemes_of(code@),
                    ns,
                    0,
                    Seq::empty(),
                    None,
                    Seq::empty(),
                ) == Err::<Seq<OpV>, ErrV>(e@)),
        }),
{
    let nodes = match crate::syntax::ast(code) {
        Ok(n) => n,
        Err(e) => {
            return Err(e);
        },
    };
    gen_ir(code, nodes)
}

/// Compiles the expanded node list into the linear instruction program,
/// resolving loop bodies into patched conditional jumps.
#[verifier::rlimit(100)]
pub fn gen_ir(code: &str, ast: Vec<Node>) -> (r: Result<Vec<Op>, CompileError>)
    requires
        forall|k: int|
            0 <= k < ast.deep_view().len() ==> node_span_wf(
                #[trigger] ast.deep_view()[k],
                graphemes_of(code@).len() as int,
            ),
    ensures
        (match r {
            Ok(ops) => spec_gen(
                graphemes_of(code@),
                ast.deep_view(),
                0,
                Seq::empty(),
                None,
                Seq::empty(),
            ) == Ok::<Seq<OpV>, ErrV>(ops.deep_view()),
            Err(e) => spec_gen(
                graphemes_of(code@),
                ast.deep_view(),
                0,
                Seq::empty(),
                None,
                Seq::empty(),
            ) == Err::<Seq<OpV>, ErrV>(e@),
        }),
{
    let gs = split_graphemes(code);
    let ghost gsv = gs.deep_view();
    let ghost nv = ast.deep_view();
    let glen = gs.len();
    let nlen = ast.len();
    let mut ops: Vec<Op> = Vec::new();
    let mut mark: Option<(usize, usize)> = None;
    let mut scope: Vec<String> = Vec::new();
    let mut i: usize = 0;
    proof {
        assert(ops.deep_view() =~= Seq::<OpV>::empty());
        assert(scope.deep_view() =~= Seq::<Seq<char>>::empty());
    }
    while i < ast.len()
        invariant
            glen == gs.len(),
            nlen == ast.len(),
            gs.len() < usize::MAX,
            gsv == gs.deep_view(),
            gsv == graphemes_of(code@),
            nv == ast.deep_view(),
            forall|k: int| 0 <= k < nv.len() ==> node_span_wf(#[trigger] nv[k], glen as int),
            (mark matches Some((node_i, op_i)) ==> node_i < ast@.len() && op_i
                < ops.deep_view().len()),
            spec_gen(gsv, nv, 0, Seq::empty(), None, Seq::empty()) == spec_gen(
                gsv,
                nv,
                i as int,
                ops.deep_view(),
                mark,
                scope.deep_view(),
            ),
        decreases ast.len() - i,
    {
        let ghost ops_pre = ops.deep_view();
        let ghost scope_pre = scope.deep_view();
        let ghost mark_pre = mark;
        proof {
            assert(nv[i as int] == ast@[i as int]@);
        }
        let n_first = ast[i].first_char;
        let n_end = ast[i].end_char;
        match &ast[i].inner {
            InnerNode::Literal => {
                let value = unescape_range(&gs, n_first, n_end);
                ops.push(Op::PutStr { value });
                ops.push(Op::Flush);
                proof {
                    assert(ops.deep_view() =~= ops_pre + seq![
                        OpV::PutStr {
                            value: spec_unescape(gsv, n_first as int, false, n_end as int),
                        },
                        OpV::Flush,
                    ]);
                }
                i += 1;
            },
            InnerNode::Int { .. } => {
                let value = crate::seg::concat_range(&gs, n_first, n_end);
                ops.push(Op::PutStr { value });
                proof {
                    assert(ops.deep_view() =~= ops_pre.push(
                        OpV::PutStr { value: text_of(gsv, n_first as int, n_end as int) },
                    ));
                }
                if is_node_pipe(&ast, i + 1) {
                    proof {
                        assert(i + 1 < nv.len());
                    }
                    match expect_string(&ast, i + 2) {
                        Ok(()) => {
                            ops.push(Op::PutScopeVar { name: underscore_string() });
                            scope.push(underscore_string());
                            proof {
                                assert(scope.deep_view() =~= scope_pre.push(underscore_name()));
                                assert(ops.deep_view() =~= ops_pre.push(
                                    OpV::PutStr {
                                        value: text_of(gsv, n_first as int, n_end as int),
                                    },
                                ).push(OpV::PutScopeVar { name: underscore_name() }));
                            }
                            i += 2;
                        },
                        Err(e) => {
                            return Err(e);
                        },
                    }
                } else {
                    ops.push(Op::Flush);
                    proof {
                        assert(ops.deep_view() =~= ops_pre.push(
                            OpV::PutStr { value: text_of(gsv, n_first as int, n_end as int) },
                        ).push(OpV::Flush));
                    }
                    i += 1;
                }
            },
            InnerNode::Name => {
                let name = crate::seg::concat_range(&gs, n_first, n_end);
                if is_name_reserved(name.as_str()) {
                    return Err(CompileError::new_undefined_var(n_first, name));
                }
                ops.push(Op::PutName { start: None, end: None, name });
                proof {
                    assert(ops.deep_view() =~= ops_pre.push(
                        OpV::PutName {
                            start: None,
                            end: None,
                            name: text_of(gsv, n_first as int, n_end as int),
                        },
                    ));
                }
                if is_node_pipe(&ast, i + 1) {
                    proof {
                        assert(i + 1 < nv.len());
                    }
                    match expect_string(&ast, i + 2) {
                        Ok(()) => {
                            ops.push(Op::PutScopeVar { name: underscore_string() });
                            scope.push(underscore_string());
                            proof {
                                assert(scope.deep_view() =~= scope_pre.push(underscore_name()));
                                assert(ops.deep_view() =~= ops_pre.push(
                                    OpV::PutName {
                                        start: None,
                                        end: None,
                                        name: text_of(gsv, n_first as int, n_end as int),
                                    },
                                ).push(OpV::PutScopeVar { name: underscore_name() }));
                            }
                            i += 2;
                        },
                        Err(e) => {
                            return Err(e);
                        },
                    }
                } else {
                    ops.push(Op::Flush);
                    proof {
                        assert(ops.deep_view() =~= ops_pre.push(
                            OpV::PutName {
                                start: None,
                                end: None,
                                name: text_of(gsv, n_first as int, n_end as int),
                            },
                        ).push(OpV::Flush));
                    }
                    i += 1;
                }
            },
            InnerNode::Array { .. } => {
                match gen_array(&gs, &ast, i, &mut ops, &mut mark, &mut scope) {
                    Ok(ni) => {
                        i = ni;
                    },
                    Err(e) => {
                        return Err(e);
                    },
                }
            },
            InnerNode::String { children } => {
                let ghost childrenv = children@;
                let mut cvec: Vec<Op> = Vec::new();
                let mut k: usize = 0;
                proof {
                    assert(cvec.deep_view() =~= Seq::<OpV>::empty());
                }
                while k < children.len()
                    invariant
                        k <= children.len(),
                        glen == gs.len(),
                        nlen == ast.len(),
                        gs.len() < usize::MAX,
                        gsv == gs.deep_view(),
                        gsv == graphemes_of(code@),
                        childrenv == children@,
                        scope_pre == scope.deep_view(),
                        ops_pre == ops.deep_view(),
                        nv == ast.deep_view(),
                        forall|q: int|
                            0 <= q < nv.len() ==> node_span_wf(#[trigger] nv[q], glen as int),
                        (mark matches Some((node_i, op_i)) ==> node_i < ast@.len() && op_i
                            < ops.deep_view().len()),
                        i < nv.len(),
                        nv[i as int].inner == (InnerV::String { children: childrenv }),
                        spec_gen(gsv, nv, 0, Seq::empty(), None, Seq::empty()) == spec_gen(
                            gsv,
                            nv,
                            i as int,
                            ops_pre,
                            mark,
                            scope_pre,
                        ),
                        forall|q: int|
                            0 <= q < childrenv.len() ==> (#[trigger] childrenv[q]).first_char
                                <= glen && childrenv[q].end_char <= glen,
                        spec_children_ops(gsv, childrenv, scope_pre, 0, Seq::empty())
                            == spec_children_ops(
                            gsv,
                            childrenv,
                            scope_pre,
                            k as int,
                            cvec.deep_view(),
                        ),
                    decreases children.len() - k,
                {
                    let ghost cv_pre = cvec.deep_view();
                    let c = children[k];
                    match c.kind {
                        ChildKind::Name => {
                            let ce = if c.end_char < c.first_char {
                                c.first_char
                            } else {
                                c.end_char
                            };
                            let name = crate::seg::concat_range(&gs, c.first_char, ce);
                            if !scope_contains(&scope, &name) && is_name_reserved(name.as_str()) {
                                proof {
                                    assert(spec_children_ops(
                                        gsv,
                                        childrenv,
                                        scope_pre,
                                        k as int,
                                        cvec.deep_view(),
                                    ) == Err::<Seq<OpV>, ErrV>(
                                        undefined_var_err(c.first_char as int, name@),
                                    ));
                                    assert(spec_gen(gsv, nv, i as int, ops_pre, mark, scope_pre)
                                        == Err::<Seq<OpV>, ErrV>(
                                        undefined_var_err(c.first_char as int, name@),
                                    ));
                                }
                                return Err(CompileError::new_undefined_var(c.first_char, name));
                            }
                            cvec.push(Op::PutName { start: None, end: None, name });
                            proof {
                                assert(cvec.deep_view() =~= cv_pre.push(
                                    OpV::PutName {
                                        start: None,
                                        end: None,
                                        name: text_of(gsv, c.first_char as int, ce as int),
                                    },
                                ));
                            }
                        },
                        ChildKind::Literal => {
                            let value = unescape_range(&gs, c.first_char, c.end_char);
                            cvec.push(Op::PutStr { value });
                            proof {
                                assert(cvec.deep_view() =~= cv_pre.push(
                                    OpV::PutStr {
                                        value: spec_unescape(
                                            gsv,
                                            c.first_char as int,
                                            false,
                                            c.end_char as int,
                                        ),
                                    },
                                ));
                            }
                        },
                    }
                    k += 1;
                }
                let ghost copsv = cvec.deep_view();
                ops.append(&mut cvec);
                ops.push(Op::Collapse);
                proof {
                    assert(ops.deep_view() =~= ops_pre + copsv + seq![OpV::Collapse]);
                    assert(spec_children_ops(
                        gsv,
                        childrenv,
                        scope_pre,
                        childrenv.len() as int,
                        copsv,
                    ) == Ok::<Seq<OpV>, ErrV>(copsv));
                    assert(spec_children_ops(gsv, childrenv, scope_pre, 0, Seq::empty()) == Ok::<
                        Seq<OpV>,
                        ErrV,
                    >(copsv));
                }
                if is_node_pipe(&ast, i + 1) {
                    proof {
                        assert(i + 1 < nv.len());
                    }
                    match expect_string(&ast, i + 2) {
                        Ok(()) => {
                            ops.push(Op::PutScopeVar { name: underscore_string() });
                            scope.push(underscore_string());
                            proof {
                                assert(scope.deep_view() =~= scope_pre.push(underscore_name()));
                                assert(ops.deep_view() =~= (ops_pre + copsv + seq![
                                    OpV::Collapse,
                                ]).push(OpV::PutScopeVar { name: underscore_name() }));
                            }
                            i += 2;
                        },
                        Err(e) => {
                            return Err(e);
                        },
                    }
                } else {
                    ops.push(Op::Flush);
                    ops.push(Op::DestroyScope);
                    let ghost ops2 = (ops_pre + copsv + seq![OpV::Collapse]) + seq![
                        OpV::Flush,
                        OpV::DestroyScope,
                    ];
                    proof {
                        assert(ops.deep_view() =~= ops2);
                    }
                    match mark {
                        Some((node_i, op_i)) => {
                            let target = if ops.len() == usize::MAX {
                                0
                            } else {
                                ops.len() + 1
                            };
                            let mut patched: Option<Op> = None;
                            proof {
                                assert(ops2[op_i as int] == ops@[op_i as int]@);
                            }
                            match &ops[op_i] {
                                Op::CmpArrayEmptyJmp { start, end, name, .. } => {
                                    patched = Some(
                                        Op::CmpArrayEmptyJmp {
                                            op_index: target,
                                            start: *start,
                                            end: *end,
                                            name: name.clone(),
                                        },
                                    );
                                },
                                _ => {},
                            }
                            let ghost ops3_expected = (match ops2[op_i as int] {
                                OpV::CmpArrayEmptyJmp { start, end, name, .. } => ops2.update(
                                    op_i as int,
                                    OpV::CmpArrayEmptyJmp {
                                        op_index: spec_inc_idx(ops2.len() as int),
                                        start,
                                        end,
                                        name,
                                    },
                                ),
                                _ => ops2,
                            });
                            proof {
                                assert(ops.deep_view() == ops2);
                                assert(forall|q: int|
                                    0 <= q < ops2.len() ==> ops2[q] == (
                                    #[trigger] ops@[q])@);
                            }
                            let ghost before_set = ops@;
                            match patched {
                                Some(op) => {
                                    ops.set(op_i, op);
                                },
                                None => {},
                            }
                            proof {
                                let dv = ops.deep_view();
                                assert(dv.len() == ops3_expected.len());
                                assert forall|q: int| 0 <= q < dv.len() implies dv[q]
                                    == ops3_expected[q] by {
                                    assert(dv[q] == ops@[q]@);
                                    if q != op_i {
                                        assert(ops@[q] == before_set[q]);
                                        assert(ops2[q] == before_set[q]@);
                                    }
                                }
                                assert(ops.deep_view() =~= ops3_expected);
                            }
                            proof {
                                assert(nv[node_i as int] == ast@[node_i as int]@);
                            }
                            let mut close_ops: Option<(Option<usize>, String)> = None;
                            match &ast[node_i].inner {
                                InnerNode::Array { name, end, .. } => {
                                    close_ops = Some((*end, name.clone()));
                                },
                                _ => {},
                            }
                            match close_ops {
                                Some((aend, aname)) => {
                                    let ghost anamev = aname@;
                                    ops.push(Op::IncCounter);
                                    ops.push(
                                        Op::CmpCounterLessJmp {
                                            op_index: op_i,
                                            value: aend,
                                            name: aname,
                                        },
                                    );
                                    proof {
                                        assert(ops.deep_view() =~= ops3_expected + seq![
                                            OpV::IncCounter,
                                            OpV::CmpCounterLessJmp {
                                                op_index: op_i,
                                                value: aend,
                                                name: anamev,
                                            },
                                        ]);
                                    }
                                },
                                None => {},
                            }
                            mark = None;
                            scope = Vec::new();
                            proof {
                                assert(scope.deep_view() =~= Seq::<Seq<char>>::empty());
                            }
                            i += 1;
                            proof {
                                assert(spec_gen(gsv, nv, 0, Seq::empty(), None, Seq::empty())
                                    == spec_gen(
                                    gsv,
                                    nv,
                                    i as int,
                                    ops.deep_view(),
                                    mark,
                                    scope.deep_view(),
                                ));
                            }
                        },
                        None => {
                            i += 1;
                            proof {
                                assert(spec_gen(gsv, nv, 0, Seq::empty(), None, Seq::empty())
                                    == spec_gen(
                                    gsv,
                                    nv,
                                    i as int,
                                    ops.deep_view(),
                                    mark,
                                    scope.deep_view(),
                                ));
                            }
                        },
                    }
                }
            },
            InnerNode::NewLine => {
                i += 1;
            },
            InnerNode::Pipe => {
                return Err(CompileError::new_pipe_no_parent(n_first));
            },
            InnerNode::Range { .. } => {
                return Err(CompileError::new_invalid_array(n_first));
            },
            InnerNode::MacroDef => {
                let none = Vec::new();
                return Err(CompileError::new_syntax(n_first, none.as_slice()));
            },
            InnerNode::MacroExp => {
                let none = Vec::new();
                return Err(CompileError::new_syntax(n_first, none.as_slice()));
            },
        }
    }
    Ok(ops)
}


/// One generator step for a piped true-array node, stated alone so the
/// solver proves it in a small context.
proof fn lemma_gen_array_step(
    gs: Seq<Seq<char>>,
    nodes: Seq<NodeV>,
    i: int,
    ops: Seq<OpV>,
    mark: Option<(usize, usize)>,
    scope: Seq<Seq<char>>,
    name: Seq<char>,
    start: Option<usize>,
    end: Option<usize>,
    ops2: Seq<OpV>,
    mark2: Option<(usize, usize)>,
    scope2: Seq<Seq<char>>,
)
    requires
        0 <= i < nodes.len(),
        nodes[i].inner == (InnerV::Array { name, start, end }),
        spec_is_array_name(name),
        spec_is_pipe(nodes, i + 1),
        spec_expect_string(nodes, i + 2) == Ok::<(), ErrV>(()),
        ops2 == ops + seq![
            OpV::SetCounter { value: (match start { Some(s) => s, None => 0usize }) },
            OpV::CmpArrayEmptyJmp { op_index: 0, start, end, name },
            OpV::LoadArrayItem { name },
            OpV::PutScopeVar { name: item_name() },
            OpV::LoadCounter,
            OpV::PutScopeVar { name: index_name() },
        ],
        mark2 == Some((i as usize, spec_inc_idx(ops.len() as int))),
        scope2 == scope.push(item_name()).push(index_name()),
    ensures
        spec_gen(gs, nodes, i, ops, mark, scope) == spec_gen(gs, nodes, i + 2, ops2, mark2, scope2),
{
}

} // verus!
