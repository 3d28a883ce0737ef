//! The guarantees the pipeline states of itself across its stages, each
//! proved once and for all from the stages' own specifications.

use vstd::prelude::*;

use crate::assembly::{
    spec_all_lines, spec_header, spec_instruction_lines, spec_prefix_lines, spec_render,
    SpecInstruction, SpecSysCall,
};
use crate::generator::{spec_generate, spec_generate_from};
use crate::parser::{
    spec_kind_name, spec_lookup, spec_parse, spec_parse_expr, spec_parse_intlit, spec_parse_exit,
    spec_parse_tokens_from, spec_parse_var, ExpressionType, SpecExpr, SpecNode, SpecVar,
};
use crate::lexer::{
    char_alphanumeric, char_numeric, int_lexeme, lemma_first_nl_exact, lemma_munch_alnum_exact,
    lemma_munch_numeric_exact, spec_tokens_from, spec_tokens_source_from,
};
use crate::token::{SpecToken, TokenType};

verus! {

/// The assembly text always begins with the fixed entry header, whatever
/// the instructions are.
pub proof fn lemma_header_always_first(instrs: Seq<SpecInstruction>)
    ensures
        spec_render(instrs).len() >= spec_header().len(),
        spec_render(instrs).take(spec_header().len() as int) == spec_header(),
{
    assert(spec_render(instrs).take(spec_header().len() as int) =~= spec_header());
}

/// The fixed entry header is exactly the two lines `global _start` and
/// `_start:`, in that order.
pub proof fn lemma_header_two_lines()
    ensures
        spec_header() == "global _start"@ + seq!['\n'] + "_start:"@,
{
    reveal_strlit("global _start\n_start:");
    reveal_strlit("global _start");
    reveal_strlit("_start:");
    assert(spec_header() =~= "global _start"@ + seq!['\n'] + "_start:"@);
}

/// A single syscall-exit instruction renders to exactly the header followed
/// by the three fixed lines, the status register set to the status text
/// verbatim.
pub proof fn lemma_render_exit(v: Seq<char>)
    ensures
        spec_render(seq![SpecInstruction::Syscall(SpecSysCall::Exit(v))]) == spec_header() + (
        seq!['\n'] + "mov rax, 60"@) + (seq!['\n'] + ("mov rdi, "@ + v)) + (seq!['\n']
            + "syscall"@),
{
    let l0 = "mov rax, 60"@;
    let l1 = "mov rdi, "@ + v;
    let l2 = "syscall"@;
    let instrs = seq![SpecInstruction::Syscall(SpecSysCall::Exit(v))];
    let lines = seq![l0, l1, l2];
    assert(instrs.skip(1) =~= Seq::<SpecInstruction>::empty());
    assert(spec_all_lines(Seq::<SpecInstruction>::empty()) == Seq::<Seq<char>>::empty());
    assert(spec_instruction_lines(instrs[0]) == lines);
    assert(spec_all_lines(instrs) =~= lines);
    assert(lines.skip(1) =~= seq![l1, l2]);
    assert(seq![l1, l2].skip(1) =~= seq![l2]);
    assert(seq![l2].skip(1) =~= Seq::<Seq<char>>::empty());
    assert(spec_prefix_lines(Seq::<Seq<char>>::empty()) == Seq::<char>::empty());
    assert(spec_prefix_lines(seq![l2]) =~= seq!['\n'] + l2);
    assert(spec_prefix_lines(seq![l1, l2]) =~= (seq!['\n'] + l1) + (seq!['\n'] + l2));
    assert(spec_prefix_lines(lines) =~= (seq!['\n'] + l0) + (seq!['\n'] + l1) + (seq!['\n'] + l2));
    assert(spec_header() + spec_prefix_lines(lines) =~= spec_header() + (seq!['\n'] + l0) + (
    seq!['\n'] + l1) + (seq!['\n'] + l2));
}

/// The status text an `Exit` node carries.
pub open spec fn spec_exit_status(n: SpecNode) -> Seq<char> {
    match n {
        SpecNode::Exit(v) => v,
        _ => Seq::empty(),
    }
}

proof fn lemma_generate_exits_from(nodes: Seq<SpecNode>, acc: Seq<SpecInstruction>)
    requires
        forall|i: int| 0 <= i < nodes.len() ==> nodes[i] is Exit,
    ensures
        spec_generate_from(nodes, acc) == Ok::<Seq<SpecInstruction>, Seq<char>>(
            acc + nodes.map_values(
                |n: SpecNode| SpecInstruction::Syscall(SpecSysCall::Exit(spec_exit_status(n))),
            ),
        ),
    decreases nodes.len(),
{
    let f = |n: SpecNode| SpecInstruction::Syscall(SpecSysCall::Exit(spec_exit_status(n)));
    if nodes.len() == 0 {
        assert(acc + nodes.map_values(f) =~= acc);
    } else {
        assert(nodes[0] is Exit);
        let head = f(nodes[0]);
        assert forall|i: int| 0 <= i < nodes.skip(1).len() implies nodes.skip(1)[i] is Exit by {
            assert(nodes.skip(1)[i] == nodes[i + 1]);
        }
        lemma_generate_exits_from(nodes.skip(1), acc.push(head));
        assert(acc.push(head) + nodes.skip(1).map_values(f) =~= acc + nodes.map_values(f));
    }
}

/// A statement list of `Exit` nodes alone generates one syscall-exit per
/// node, in order, each carrying the node's status text verbatim.
pub proof fn lemma_generate_exits(nodes: Seq<SpecNode>)
    requires
        forall|i: int| 0 <= i < nodes.len() ==> nodes[i] is Exit,
    ensures
        spec_generate(nodes) == Ok::<Seq<SpecInstruction>, Seq<char>>(
            nodes.map_values(
                |n: SpecNode| SpecInstruction::Syscall(SpecSysCall::Exit(spec_exit_status(n))),
            ),
        ),
{
    let f = |n: SpecNode| SpecInstruction::Syscall(SpecSysCall::Exit(spec_exit_status(n)));
    lemma_generate_exits_from(nodes, Seq::empty());
    assert(Seq::<SpecInstruction>::empty() + nodes.map_values(f) =~= nodes.map_values(f));
}

/// For a program that is a single `exit <integer literal>;`, parsing yields
/// exactly one `Exit` node carrying the literal's text, generation one
/// syscall-exit with that text, and the final text sets the status register
/// to exactly that text, unmodified.
pub proof fn lemma_exit_program_text(e: SpecToken, l: SpecToken, s: SpecToken)
    requires
        e.kind == TokenType::EXIT,
        l.kind == TokenType::INTLIT,
        s.kind == TokenType::SEMICOLON,
    ensures
        spec_parse(seq![e, l, s]) == Ok::<Seq<SpecNode>, Seq<char>>(
            seq![SpecNode::Exit(l.lexeme)],
        ),
        spec_generate(seq![SpecNode::Exit(l.lexeme)]) == Ok::<Seq<SpecInstruction>, Seq<char>>(
            seq![SpecInstruction::Syscall(SpecSysCall::Exit(l.lexeme))],
        ),
        spec_render(seq![SpecInstruction::Syscall(SpecSysCall::Exit(l.lexeme))]) == spec_header()
            + (seq!['\n'] + "mov rax, 60"@) + (seq!['\n'] + ("mov rdi, "@ + l.lexeme)) + (
        seq!['\n'] + "syscall"@),
{
    let t = seq![e, l, s];
    let none: Seq<SpecVar> = Seq::empty();
    assert(spec_parse_intlit(t, 1, none) == Ok::<Seq<char>, Seq<char>>(l.lexeme));
    assert(spec_parse_exit(t, 1, none) == Ok::<(Seq<char>, int), Seq<char>>((l.lexeme, 2)));
    let nodes1 = seq![SpecNode::Exit(l.lexeme)];
    assert(spec_parse_tokens_from(t, 0, none, Seq::empty()) == spec_parse_tokens_from(
        t,
        2,
        none,
        Seq::<SpecNode>::empty().push(SpecNode::Exit(l.lexeme)),
    ));
    assert(Seq::<SpecNode>::empty().push(SpecNode::Exit(l.lexeme)) =~= nodes1);
    assert(spec_parse_tokens_from(t, 2, none, nodes1) == spec_parse_tokens_from(t, 3, none, nodes1));
    assert(nodes1 + none.map_values(|v: SpecVar| SpecNode::Var(v)) =~= nodes1);
    assert forall|i: int| 0 <= i < nodes1.len() implies nodes1[i] is Exit by {}
    lemma_generate_exits(nodes1);
    assert(nodes1.map_values(
        |n: SpecNode| SpecInstruction::Syscall(SpecSysCall::Exit(spec_exit_status(n))),
    ) =~= seq![SpecInstruction::Syscall(SpecSysCall::Exit(l.lexeme))]);
    lemma_render_exit(l.lexeme);
}

/// `exit;` and `exit 0;` parse to the same nodes: the defaulted status is
/// the integer literal `0`, so every later stage produces the same output
/// for both programs.
pub proof fn lemma_exit_default_status(
    e1: SpecToken,
    s1: SpecToken,
    e2: SpecToken,
    z2: SpecToken,
    s2: SpecToken,
)
    requires
        e1.kind == TokenType::EXIT,
        s1.kind == TokenType::SEMICOLON,
        e2.kind == TokenType::EXIT,
        z2.kind == TokenType::INTLIT,
        z2.lexeme == "0"@,
        s2.kind == TokenType::SEMICOLON,
    ensures
        spec_parse(seq![e1, s1]) == spec_parse(seq![e2, z2, s2]),
        spec_parse(seq![e1, s1]) == Ok::<Seq<SpecNode>, Seq<char>>(seq![SpecNode::Exit("0"@)]),
{
    let t1 = seq![e1, s1];
    let t2 = seq![e2, z2, s2];
    let none: Seq<SpecVar> = Seq::empty();
    let nodes1 = seq![SpecNode::Exit("0"@)];
    assert(spec_parse_exit(t1, 1, none) == Ok::<(Seq<char>, int), Seq<char>>(("0"@, 1)));
    assert(spec_parse_tokens_from(t1, 0, none, Seq::empty()) == spec_parse_tokens_from(
        t1,
        1,
        none,
        Seq::<SpecNode>::empty().push(SpecNode::Exit("0"@)),
    ));
    assert(Seq::<SpecNode>::empty().push(SpecNode::Exit("0"@)) =~= nodes1);
    assert(spec_parse_tokens_from(t1, 1, none, nodes1) == spec_parse_tokens_from(
        t1,
        2,
        none,
        nodes1,
    ));
    assert(nodes1 + none.map_values(|v: SpecVar| SpecNode::Var(v)) =~= nodes1);
    lemma_exit_program_text(e2, z2, s2);
}

/// Declaring a name already bound fails with the duplicate-declaration
/// error, never silently overwriting; the check comes after the right-hand
/// side has parsed.
pub proof fn lemma_duplicate_declaration_rejected(toks: Seq<SpecToken>, i: int, vars: Seq<SpecVar>)
    requires
        0 <= i,
        i + 1 < toks.len(),
        toks[i].kind == TokenType::UNKNOWN,
        toks[i + 1].kind == TokenType::EQUAL,
        spec_parse_expr(toks, i + 2, vars) is Ok,
        spec_lookup(vars, toks[i].lexeme) is Some,
    ensures
        spec_parse_var(toks, i, vars) == Err::<SpecVar, Seq<char>>(
            "Variable "@ + toks[i].lexeme + " is declared twice"@,
        ),
{
}

/// A reference to a name with no binding fails with the unresolved-reference
/// error, in either expression position.
pub proof fn lemma_unresolved_reference_rejected(toks: Seq<SpecToken>, i: int, vars: Seq<SpecVar>)
    requires
        0 <= i < toks.len(),
        toks[i].kind == TokenType::UNKNOWN,
        spec_lookup(vars, toks[i].lexeme) is None,
    ensures
        spec_parse_expr(toks, i, vars) == Err::<SpecExpr, Seq<char>>("Invalid Unknown expression"@),
        spec_parse_intlit(toks, i, vars) == Err::<Seq<char>, Seq<char>>(
            "Invalid Unknown expression"@,
        ),
{
}

/// A variable whose kind is not INT, standing where an integer is required,
/// fails with the kind-mismatch error naming the kind that was found.
pub proof fn lemma_kind_mismatch_rejected(
    toks: Seq<SpecToken>,
    i: int,
    vars: Seq<SpecVar>,
    v: SpecVar,
)
    requires
        0 <= i < toks.len(),
        toks[i].kind == TokenType::UNKNOWN,
        spec_lookup(vars, toks[i].lexeme) == Some(v),
        v.expr.kind != ExpressionType::INT,
    ensures
        spec_parse_intlit(toks, i, vars) == Err::<Seq<char>, Seq<char>>(
            "Expected Int variable found: "@ + spec_kind_name(v.expr.kind),
        ),
{
}

/// The lexer turns the text `exit <digits>;` into exactly the three tokens
/// of an exit statement, the literal's text intact.
proof fn lemma_tokens_of_exit_text(v: Seq<char>, file: Seq<char>)
    requires
        int_lexeme(v),
    ensures
        spec_tokens_from("exit "@ + v + ";"@, file, 1, 1) == seq![
            SpecToken { kind: TokenType::EXIT, lexeme: "exit"@, file, line: 1, col: 1 },
            SpecToken { kind: TokenType::INTLIT, lexeme: v, file, line: 1, col: 6 },
            SpecToken {
                kind: TokenType::SEMICOLON,
                lexeme: ";"@,
                file,
                line: 1,
                col: (6 + v.len()) as nat,
            },
        ],
{
    reveal_strlit("exit ");
    reveal_strlit("exit");
    reveal_strlit("ret");
    reveal_strlit(";");
    let s = "exit "@ + v + ";"@;
    let n = v.len() as int;
    assert(s.len() == 6 + n);
    assert(s[0] == 'e');
    // the keyword `exit` munches to the space after it
    assert forall|k: int| 0 <= k < 3 implies char_alphanumeric(#[trigger] s.skip(1)[k]) by {
        assert(s.skip(1)[k] == "exit "@[k + 1]);
    }
    assert(s.skip(1)[3] == ' ');
    assert(!char_alphanumeric(' '));
    lemma_munch_alnum_exact(s.skip(1), 3);
    assert(s.take(4) =~= "exit"@);
    assert(crate::lexer::spec_classify_word("exit"@) == TokenType::EXIT);
    let s1 = s.skip(4);
    assert(s1[0] == ' ');
    // the space is skipped, then the digits munch to the semicolon
    let s2 = s1.skip(1);
    assert(s2 =~= v + ";"@);
    assert(s2[0] == v[0]);
    assert forall|k: int| 0 <= k < n - 1 implies char_numeric(#[trigger] s2.skip(1)[k]) by {
        assert(s2.skip(1)[k] == v[k + 1]);
    }
    assert(s2.skip(1)[n - 1] == ';');
    assert(!char_numeric(';'));
    lemma_munch_numeric_exact(s2.skip(1), (n - 1) as nat);
    assert(s2.take(n) =~= v);
    let s3 = s2.skip(n);
    assert(s3 =~= ";"@);
    assert(s3[0] == ';');
    // the semicolon stands alone and ends the text
    assert(s3.skip(1) =~= Seq::<char>::empty());
    assert(spec_tokens_from(s3, file, 1, (6 + v.len()) as nat) == seq![
        SpecToken {
            kind: TokenType::SEMICOLON,
            lexeme: ";"@,
            file,
            line: 1,
            col: (6 + v.len()) as nat,
        },
    ] + spec_tokens_from(Seq::empty(), file, 1, (7 + v.len()) as nat));
    assert(spec_tokens_from(s2, file, 1, 6) == seq![
        SpecToken { kind: TokenType::INTLIT, lexeme: v, file, line: 1, col: 6 },
    ] + spec_tokens_from(s3, file, 1, (6 + v.len()) as nat));
    assert(spec_tokens_from(s1, file, 1, 5) == spec_tokens_from(s2, file, 1, 6));
    assert(spec_tokens_from(s, file, 1, 1) == seq![
        SpecToken { kind: TokenType::EXIT, lexeme: "exit"@, file, line: 1, col: 1 },
    ] + spec_tokens_from(s1, file, 1, 5));
    assert(seq![
        SpecToken { kind: TokenType::EXIT, lexeme: "exit"@, file, line: 1, col: 1 },
    ] + (seq![
        SpecToken { kind: TokenType::INTLIT, lexeme: v, file, line: 1, col: 6 },
    ] + (seq![
        SpecToken {
            kind: TokenType::SEMICOLON,
            lexeme: ";"@,
            file,
            line: 1,
            col: (6 + v.len()) as nat,
        },
    ] + Seq::<SpecToken>::empty())) =~= seq![
        SpecToken { kind: TokenType::EXIT, lexeme: "exit"@, file, line: 1, col: 1 },
        SpecToken { kind: TokenType::INTLIT, lexeme: v, file, line: 1, col: 6 },
        SpecToken {
            kind: TokenType::SEMICOLON,
            lexeme: ";"@,
            file,
            line: 1,
            col: (6 + v.len()) as nat,
        },
    ]);
}

/// The whole pipeline on the whole source text `exit <digits>;`: lexing
/// yields the three tokens, parsing one `Exit` node with the digits intact,
/// generation one syscall-exit, and rendering exactly the expected assembly
/// text, the status register set to the digits verbatim.
pub proof fn lemma_compile_exit_program(v: Seq<char>, file: Seq<char>)
    requires
        int_lexeme(v),
    ensures
        spec_tokens_source_from("exit "@ + v + ";"@, file, 1) == seq![
            SpecToken { kind: TokenType::EXIT, lexeme: "exit"@, file, line: 1, col: 1 },
            SpecToken { kind: TokenType::INTLIT, lexeme: v, file, line: 1, col: 6 },
            SpecToken {
                kind: TokenType::SEMICOLON,
                lexeme: ";"@,
                file,
                line: 1,
                col: (6 + v.len()) as nat,
            },
        ],
        spec_parse(spec_tokens_source_from("exit "@ + v + ";"@, file, 1)) == Ok::<
            Seq<SpecNode>,
            Seq<char>,
        >(seq![SpecNode::Exit(v)]),
        spec_generate(seq![SpecNode::Exit(v)]) == Ok::<Seq<SpecInstruction>, Seq<char>>(
            seq![SpecInstruction::Syscall(SpecSysCall::Exit(v))],
        ),
        spec_render(seq![SpecInstruction::Syscall(SpecSysCall::Exit(v))]) == spec_header() + (
        seq!['\n'] + "mov rax, 60"@) + (seq!['\n'] + ("mov rdi, "@ + v)) + (seq!['\n']
            + "syscall"@),
{
    reveal_strlit("exit ");
    reveal_strlit(";");
    let s = "exit "@ + v + ";"@;
    let n = v.len() as int;
    // the text holds no line feed, so it is one line
    assert forall|k: int| 0 <= k < s.len() implies #[trigger] s[k] != '\n' by {
        if k < 5 {
            assert(s[k] == "exit "@[k]);
        } else if k < 5 + n {
            assert(s[k] == v[k - 5]);
            assert(char_numeric(v[k - 5]));
            assert(!char_numeric('\n'));
        } else {
            assert(s[k] == ';');
        }
    }
    lemma_first_nl_exact(s, s.len());
    assert(spec_tokens_source_from(s, file, 1) == spec_tokens_from(s, file, 1, 1));
    lemma_tokens_of_exit_text(v, file);
    let e = SpecToken { kind: TokenType::EXIT, lexeme: "exit"@, file, line: 1, col: 1 };
    let l = SpecToken { kind: TokenType::INTLIT, lexeme: v, file, line: 1, col: 6 };
    let z = SpecToken {
        kind: TokenType::SEMICOLON,
        lexeme: ";"@,
        file,
        line: 1,
        col: (6 + v.len()) as nat,
    };
    lemma_exit_program_text(e, l, z);
}

/// Transitive resolution: `save a = <lit>; save b = a; exit b;` resolves
/// `b` through `a` to the literal, `b`'s kind is INT, and the parse
/// succeeds, yielding the `Exit` node first and the two bindings after it
/// in declaration order.
pub proof fn lemma_transitive_resolution(toks: Seq<SpecToken>, a: Seq<char>, b: Seq<char>)
    requires
        toks.len() == 13,
        a != b,
        toks[0].kind == TokenType::VARIABLE,
        toks[1].kind == TokenType::UNKNOWN && toks[1].lexeme == a,
        toks[2].kind == TokenType::EQUAL,
        toks[3].kind == TokenType::INTLIT,
        toks[4].kind == TokenType::SEMICOLON,
        toks[5].kind == TokenType::VARIABLE,
        toks[6].kind == TokenType::UNKNOWN && toks[6].lexeme == b,
        toks[7].kind == TokenType::EQUAL,
        toks[8].kind == TokenType::UNKNOWN && toks[8].lexeme == a,
        toks[9].kind == TokenType::SEMICOLON,
        toks[10].kind == TokenType::EXIT,
        toks[11].kind == TokenType::UNKNOWN && toks[11].lexeme == b,
        toks[12].kind == TokenType::SEMICOLON,
    ensures
        spec_parse(toks) == Ok::<Seq<SpecNode>, Seq<char>>(
            seq![
                SpecNode::Exit(toks[3].lexeme),
                SpecNode::Var(
                    SpecVar {
                        name: a,
                        expr: SpecExpr { value: toks[3].lexeme, kind: ExpressionType::INT },
                    },
                ),
                SpecNode::Var(
                    SpecVar {
                        name: b,
                        expr: SpecExpr { value: toks[3].lexeme, kind: ExpressionType::INT },
                    },
                ),
            ],
        ),
{
    let none: Seq<SpecVar> = Seq::empty();
    let ex = SpecExpr { value: toks[3].lexeme, kind: ExpressionType::INT };
    let va = SpecVar { name: a, expr: ex };
    let vb = SpecVar { name: b, expr: ex };
    let v1 = seq![va];
    let v2 = seq![va, vb];
    // first declaration
    assert(spec_parse_expr(toks, 3, none) == Ok::<SpecExpr, Seq<char>>(ex));
    assert(spec_parse_var(toks, 1, none) == Ok::<SpecVar, Seq<char>>(va));
    assert(spec_parse_tokens_from(toks, 0, none, Seq::empty()) == spec_parse_tokens_from(
        toks,
        4,
        none.push(va),
        Seq::empty(),
    ));
    assert(none.push(va) =~= v1);
    assert(spec_parse_tokens_from(toks, 4, v1, Seq::empty()) == spec_parse_tokens_from(
        toks,
        5,
        v1,
        Seq::empty(),
    ));
    // second declaration: `a` resolves, `b` is still unbound
    assert(v1.skip(1) =~= none);
    assert(spec_lookup(none, b) is None);
    assert(spec_lookup(v1, a) == Some(va));
    assert(spec_lookup(v1, b) is None);
    assert(spec_parse_expr(toks, 8, v1) == Ok::<SpecExpr, Seq<char>>(ex));
    assert(spec_parse_var(toks, 6, v1) == Ok::<SpecVar, Seq<char>>(vb));
    assert(spec_parse_tokens_from(toks, 5, v1, Seq::empty()) == spec_parse_tokens_from(
        toks,
        9,
        v1.push(vb),
        Seq::empty(),
    ));
    assert(v1.push(vb) =~= v2);
    assert(spec_parse_tokens_from(toks, 9, v2, Seq::empty()) == spec_parse_tokens_from(
        toks,
        10,
        v2,
        Seq::empty(),
    ));
    // the exit statement: `b` resolves through `a`, kind INT
    assert(v2.skip(1) =~= seq![vb]);
    assert(seq![vb].skip(1) =~= none);
    assert(spec_lookup(seq![vb], b) == Some(vb));
    assert(spec_lookup(v2, b) == Some(vb));
    assert(spec_parse_intlit(toks, 11, v2) == Ok::<Seq<char>, Seq<char>>(toks[3].lexeme));
    assert(spec_parse_exit(toks, 11, v2) == Ok::<(Seq<char>, int), Seq<char>>((
        toks[3].lexeme,
        12,
    )));
    let nodes1 = seq![SpecNode::Exit(toks[3].lexeme)];
    assert(spec_parse_tokens_from(toks, 10, v2, Seq::empty()) == spec_parse_tokens_from(
        toks,
        12,
        v2,
        Seq::<SpecNode>::empty().push(SpecNode::Exit(toks[3].lexeme)),
    ));
    assert(Seq::<SpecNode>::empty().push(SpecNode::Exit(toks[3].lexeme)) =~= nodes1);
    assert(spec_parse_tokens_from(toks, 12, v2, nodes1) == spec_parse_tokens_from(
        toks,
        13,
        v2,
        nodes1,
    ));
    assert(nodes1 + v2.map_values(|v: SpecVar| SpecNode::Var(v)) =~= seq![
        SpecNode::Exit(toks[3].lexeme),
        SpecNode::Var(va),
        SpecNode::Var(vb),
    ]);
}

} // verus!
