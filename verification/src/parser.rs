//! Parsing: a single forward pass over the token sequence that builds the
//! statement nodes, resolving variable references against a flat table as it
//! goes, and failing fast on the first error.

use vstd::prelude::*;
use vstd::string::StringExecFns;

use crate::lexer::str_eq;
use crate::token::{DataType, SpecToken, Token, TokenType};

verus! {

/// The semantic kind of an expression. `FLOAT` and `STRING` are reserved
/// kinds no grammar rule can yet produce.
#[allow(non_camel_case_types)]
#[derive(Clone, Copy, Debug, PartialEq, Eq, Structural)]
pub enum ExpressionType {
    BOOLEAN,
    INT,
    FLOAT,
    STRING,
}

/// An expression: its literal text and its kind.
#[derive(Debug)]
pub struct NodeExpr {
    pub value: String,
    pub expr_type: ExpressionType,
}

/// A variable binding: a name, unique in the compilation unit, and the
/// expression bound to it.
#[derive(Debug)]
pub struct NodeVar {
    pub name: String,
    pub expr: NodeExpr,
}

/// An integer-valued expression as used by `exit`: the literal text.
#[derive(Debug)]
pub struct NodeIntLit {
    pub value: String,
}

/// An `exit` statement carrying its status expression.
#[derive(Debug)]
pub struct NodeExit {
    pub expr: NodeIntLit,
}

/// One statement node of the tree.
#[derive(Debug)]
pub enum Node {
    Expr(NodeExpr),
    Var(NodeVar),
    Exit(NodeExit),
}

/// Model of an expression: text and kind.
pub ghost struct SpecExpr {
    pub value: Seq<char>,
    pub kind: ExpressionType,
}

/// Model of a variable binding.
pub ghost struct SpecVar {
    pub name: Seq<char>,
    pub expr: SpecExpr,
}

/// Model of a statement node; an `Exit` carries its status literal's text.
pub ghost enum SpecNode {
    Expr(SpecExpr),
    Var(SpecVar),
    Exit(Seq<char>),
}

impl View for NodeExpr {
    type V = SpecExpr;

    open spec fn view(&self) -> SpecExpr {
        SpecExpr { value: self.value@, kind: self.expr_type }
    }
}

impl View for NodeVar {
    type V = SpecVar;

    open spec fn view(&self) -> SpecVar {
        SpecVar { name: self.name@, expr: self.expr@ }
    }
}

impl DeepView for NodeVar {
    type V = SpecVar;

    open spec fn deep_view(&self) -> SpecVar {
        self.view()
    }
}

impl View for NodeIntLit {
    type V = Seq<char>;

    open spec fn view(&self) -> Seq<char> {
        self.value@
    }
}

impl View for NodeExit {
    type V = Seq<char>;

    open spec fn view(&self) -> Seq<char> {
        self.expr@
    }
}

impl View for Node {
    type V = SpecNode;

    open spec fn view(&self) -> SpecNode {
        match self {
            Node::Expr(e) => SpecNode::Expr(e@),
            Node::Var(v) => SpecNode::Var(v@),
            Node::Exit(e) => SpecNode::Exit(e@),
        }
    }
}

impl DeepView for Node {
    type V = SpecNode;

    open spec fn deep_view(&self) -> SpecNode {
        self.view()
    }
}

/// The first binding of `name` in the table, scanned front to back.
pub open spec fn spec_lookup(vars: Seq<SpecVar>, name: Seq<char>) -> Option<SpecVar>
    decreases vars.len(),
{
    if vars.len() == 0 {
        None
    } else if vars[0].name == name {
        Some(vars[0])
    } else {
        spec_lookup(vars.skip(1), name)
    }
}

/// The spelling of an expression kind in diagnostics.
pub open spec fn spec_kind_name(k: ExpressionType) -> Seq<char> {
    match k {
        ExpressionType::BOOLEAN => "BOOLEAN"@,
        ExpressionType::INT => "INT"@,
        ExpressionType::FLOAT => "FLOAT"@,
        ExpressionType::STRING => "STRING"@,
    }
}

/// What parsing one expression at position `i` yields: an integer literal,
/// a boolean literal, or a variable reference resolved against the table;
/// otherwise the error that is reported.
pub open spec fn spec_parse_expr(toks: Seq<SpecToken>, i: int, vars: Seq<SpecVar>) -> Result<
    SpecExpr,
    Seq<char>,
> {
    if !(0 <= i < toks.len()) {
        Err("Unexpected end of input while parsing expression"@)
    } else {
        let t = toks[i];
        match t.kind {
            TokenType::INTLIT => Ok(SpecExpr { value: t.lexeme, kind: ExpressionType::INT }),
            TokenType::DATATYPE(DataType::BOOLEAN) => Ok(
                SpecExpr { value: t.lexeme, kind: ExpressionType::BOOLEAN },
            ),
            TokenType::UNKNOWN => match spec_lookup(vars, t.lexeme) {
                Some(v) => Ok(v.expr),
                None => Err("Invalid Unknown expression"@),
            },
            _ => Err("Invalid expression"@),
        }
    }
}

/// What parsing one integer-valued expression at position `i` yields: the
/// literal's text, or a resolved variable's text provided its kind is INT;
/// otherwise the error that is reported.
pub open spec fn spec_parse_intlit(toks: Seq<SpecToken>, i: int, vars: Seq<SpecVar>) -> Result<
    Seq<char>,
    Seq<char>,
> {
    if !(0 <= i < toks.len()) {
        Err("Unexpected end of input while parsing expression"@)
    } else {
        let t = toks[i];
        match t.kind {
            TokenType::INTLIT => Ok(t.lexeme),
            TokenType::UNKNOWN => match spec_lookup(vars, t.lexeme) {
                Some(v) => if v.expr.kind == ExpressionType::INT {
                    Ok(v.expr.value)
                } else {
                    Err("Expected Int variable found: "@ + spec_kind_name(v.expr.kind))
                },
                None => Err("Invalid Unknown expression"@),
            },
            _ => Err("Invalid expression: expected integer literal"@),
        }
    }
}

/// What parsing an `exit` statement's tail at position `i` yields: the exit
/// status text and the position after it. A semicolon right away leaves the
/// default status `0` and consumes nothing.
pub open spec fn spec_parse_exit(toks: Seq<SpecToken>, i: int, vars: Seq<SpecVar>) -> Result<
    (Seq<char>, int),
    Seq<char>,
> {
    if 0 <= i < toks.len() && toks[i].kind == TokenType::SEMICOLON {
        Ok(("0"@, i))
    } else {
        match spec_parse_intlit(toks, i, vars) {
            Ok(v) => Ok((v, i + 1)),
            Err(e) => Err(e),
        }
    }
}

/// What parsing a declaration's tail (name, `=`, expression) at position `i`
/// yields. A malformed right-hand side is reported before a duplicate name:
/// the duplicate check comes only after the expression has been parsed.
pub open spec fn spec_parse_var(toks: Seq<SpecToken>, i: int, vars: Seq<SpecVar>) -> Result<
    SpecVar,
    Seq<char>,
> {
    if !(0 <= i < toks.len()) {
        Err("Invalid Variable, Usage: save <name> = <var>"@)
    } else if toks[i].kind != TokenType::UNKNOWN {
        Err("Invalid Variable: Expected variable name"@)
    } else {
        let name = toks[i].lexeme;
        if !(i + 1 < toks.len()) {
            Err("Invalid Variable, Usage: save <name> = <var>"@)
        } else if toks[i + 1].kind != TokenType::EQUAL {
            Err("Invalid Variable, Usage: save <name> = <var>"@)
        } else {
            match spec_parse_expr(toks, i + 2, vars) {
                Err(e) => Err(e),
                Ok(expr) => if spec_lookup(vars, name) is Some {
                    Err("Variable "@ + name + " is declared twice"@)
                } else {
                    Ok(SpecVar { name, expr })
                },
            }
        }
    }
}

/// What the whole parse yields from position `i` on, with the bindings and
/// statement nodes collected so far: on success the statements in source
/// order followed by one `Var` node per binding in declaration order, and
/// otherwise the first error, which aborts the compilation.
pub open spec fn spec_parse_tokens_from(
    toks: Seq<SpecToken>,
    i: int,
    vars: Seq<SpecVar>,
    nodes: Seq<SpecNode>,
) -> Result<Seq<SpecNode>, Seq<char>>
    decreases toks.len() - i,
{
    if !(0 <= i < toks.len()) {
        Ok(nodes + vars.map_values(|v: SpecVar| SpecNode::Var(v)))
    } else {
        match toks[i].kind {
            TokenType::EXIT => match spec_parse_exit(toks, i + 1, vars) {
                Ok(p) => spec_parse_tokens_from(toks, p.1, vars, nodes.push(SpecNode::Exit(p.0))),
                Err(e) => Err(e),
            },
            TokenType::VARIABLE => match spec_parse_var(toks, i + 1, vars) {
                Ok(v) => spec_parse_tokens_from(toks, i + 4, vars.push(v), nodes),
                Err(e) => Err(e),
            },
            TokenType::SEMICOLON => spec_parse_tokens_from(toks, i + 1, vars, nodes),
            TokenType::UNKNOWN => Err("Encountered invalid token"@),
            _ => Err("Unsupported token at top level"@),
        }
    }
}

/// The result of parsing the whole token sequence of a compilation unit.
pub open spec fn spec_parse(toks: Seq<SpecToken>) -> Result<Seq<SpecNode>, Seq<char>> {
    spec_parse_tokens_from(toks, 0, Seq::empty(), Seq::empty())
}

/// The first binding of `name`, scanned front to back.
fn lookup_var<'a>(vars: &'a Vec<NodeVar>, name: &String) -> (r: Option<&'a NodeVar>)
    ensures
        match r {
            Some(v) => spec_lookup(vars.deep_view(), name@) == Some(v@),
            None => spec_lookup(vars.deep_view(), name@) is None,
        },
{
    let ghost dv = vars.deep_view();
    proof {
        assert(dv.skip(0) =~= dv);
    }
    let mut k: usize = 0;
    while k < vars.len()
        invariant
            dv == vars.deep_view(),
            k <= vars@.len(),
            dv.len() == vars@.len(),
            spec_lookup(dv, name@) == spec_lookup(dv.skip(k as int), name@),
        decreases vars@.len() - k,
    {
        proof {
            assert(dv.skip(k as int)[0] == dv[k as int]);
            assert(dv.skip(k as int).skip(1) =~= dv.skip(k as int + 1));
        }
        if str_eq(vars[k].name.as_str(), name.as_str()) {
            return Some(&vars[k]);
        }
        k += 1;
    }
    proof {
        assert(dv.skip(k as int) =~= Seq::<SpecVar>::empty());
    }
    None
}

impl ExpressionType {
    /// The spelling of the kind in diagnostics.
    pub fn name_str(&self) -> (r: &'static str)
        ensures
            r@ == spec_kind_name(*self),
    {
        match self {
            ExpressionType::BOOLEAN => "BOOLEAN",
            ExpressionType::INT => "INT",
            ExpressionType::FLOAT => "FLOAT",
            ExpressionType::STRING => "STRING",
        }
    }
}

impl NodeExpr {
    /// Parses one expression at the cursor: an integer literal, a boolean
    /// literal, or a variable reference resolved against the table.
    pub fn parse(tokens: &Vec<Token>, pos: &mut usize, vars: &Vec<NodeVar>) -> (r: Result<
        NodeExpr,
        String,
    >)
        requires
            *old(pos) <= tokens@.len(),
        ensures
            match r {
                Ok(e) => spec_parse_expr(tokens.deep_view(), *old(pos) as int, vars.deep_view())
                    == Ok::<SpecExpr, Seq<char>>(e@) && *final(pos) == *old(pos) + 1,
                Err(m) => spec_parse_expr(tokens.deep_view(), *old(pos) as int, vars.deep_view())
                    == Err::<SpecExpr, Seq<char>>(m@) && (*old(pos) < tokens@.len() ==> *final(pos)
                    == *old(pos) + 1) && (*old(pos) >= tokens@.len() ==> *final(pos) == *old(pos)),
            },
    {
        if *pos >= tokens.len() {
            return Err("Unexpected end of input while parsing expression".to_owned());
        }
        let t = &tokens[*pos];
        *pos += 1;
        match t.token_type {
            TokenType::INTLIT => Ok(
                NodeExpr { value: t.value.clone(), expr_type: ExpressionType::INT },
            ),
            TokenType::DATATYPE(DataType::BOOLEAN) => Ok(
                NodeExpr { value: t.value.clone(), expr_type: ExpressionType::BOOLEAN },
            ),
            TokenType::UNKNOWN => match lookup_var(vars, &t.value) {
                Some(v) => Ok(
                    NodeExpr { value: v.expr.value.clone(), expr_type: v.expr.expr_type },
                ),
                None => Err("Invalid Unknown expression".to_owned()),
            },
            _ => Err("Invalid expression".to_owned()),
        }
    }
}

impl NodeIntLit {
    /// Parses one integer-valued expression at the cursor: a literal, or a
    /// variable whose resolved kind must be INT.
    pub fn parse(tokens: &Vec<Token>, pos: &mut usize, vars: &Vec<NodeVar>) -> (r: Result<
        NodeIntLit,
        String,
    >)
        requires
            *old(pos) <= tokens@.len(),
        ensures
            match r {
                Ok(lit) => spec_parse_intlit(
                    tokens.deep_view(),
                    *old(pos) as int,
                    vars.deep_view(),
                ) == Ok::<Seq<char>, Seq<char>>(lit@) && *final(pos) == *old(pos) + 1,
                Err(m) => spec_parse_intlit(
                    tokens.deep_view(),
                    *old(pos) as int,
                    vars.deep_view(),
                ) == Err::<Seq<char>, Seq<char>>(m@) && (*old(pos) < tokens@.len() ==> *final(pos)
                    == *old(pos) + 1) && (*old(pos) >= tokens@.len() ==> *final(pos) == *old(pos)),
            },
    {
        if *pos >= tokens.len() {
            return Err("Unexpected end of input while parsing expression".to_owned());
        }
        let t = &tokens[*pos];
        *pos += 1;
        match t.token_type {
            TokenType::INTLIT => Ok(NodeIntLit { value: t.value.clone() }),
            TokenType::UNKNOWN => match lookup_var(vars, &t.value) {
                Some(v) => {
                    if v.expr.expr_type == ExpressionType::INT {
                        Ok(NodeIntLit { value: v.expr.value.clone() })
                    } else {
                        let mut msg = "Expected Int variable found: ".to_owned();
                        msg.append(v.expr.expr_type.name_str());
                        Err(msg)
                    }
                },
                None => Err("Invalid Unknown expression".to_owned()),
            },
            _ => Err("Invalid expression: expected integer literal".to_owned()),
        }
    }
}

impl NodeExit {
    /// Parses the tail of an `exit` statement: a semicolon right away leaves
    /// the default status `0`; anything else must be one integer-valued
    /// expression.
    pub fn parse(tokens: &Vec<Token>, pos: &mut usize, vars: &Vec<NodeVar>) -> (r: Result<
        NodeExit,
        String,
    >)
        requires
            *old(pos) <= tokens@.len(),
        ensures
            match r {
                Ok(node) => spec_parse_exit(tokens.deep_view(), *old(pos) as int, vars.deep_view())
                    matches Ok(p) && node@ == p.0 && *final(pos) == p.1,
                Err(m) => spec_parse_exit(tokens.deep_view(), *old(pos) as int, vars.deep_view())
                    == Err::<(Seq<char>, int), Seq<char>>(m@) && (*old(pos) < tokens@.len()
                    ==> *final(pos) == *old(pos) + 1) && (*old(pos) >= tokens@.len() ==> *final(pos)
                    == *old(pos)),
            },
    {
        if *pos < tokens.len() {
            let t = &tokens[*pos];
            if t.token_type == TokenType::SEMICOLON {
                return Ok(NodeExit { expr: NodeIntLit { value: "0".to_owned() } });
            }
        }
        match NodeIntLit::parse(tokens, pos, vars) {
            Ok(lit) => Ok(NodeExit { expr: lit }),
            Err(e) => Err(e),
        }
    }
}

impl NodeVar {
    /// Parses the tail of a declaration: the name, `=`, then one expression.
    /// The duplicate-name check comes only after the expression has parsed,
    /// so a malformed right-hand side is reported first.
    pub fn parse(tokens: &Vec<Token>, pos: &mut usize, vars: &Vec<NodeVar>) -> (r: Result<
        NodeVar,
        String,
    >)
        requires
            *old(pos) <= tokens@.len(),
        ensures
            match r {
                Ok(v) => spec_parse_var(tokens.deep_view(), *old(pos) as int, vars.deep_view())
                    == Ok::<SpecVar, Seq<char>>(v@) && *final(pos) == *old(pos) + 3,
                Err(m) => spec_parse_var(tokens.deep_view(), *old(pos) as int, vars.deep_view())
                    == Err::<SpecVar, Seq<char>>(m@) && *old(pos) <= *final(pos) <= *old(pos) + 3,
            },
    {
        if *pos >= tokens.len() {
            return Err("Invalid Variable, Usage: save <name> = <var>".to_owned());
        }
        let t = &tokens[*pos];
        if t.token_type != TokenType::UNKNOWN {
            return Err("Invalid Variable: Expected variable name".to_owned());
        }
        let name = t.value.clone();
        if *pos + 1 >= tokens.len() {
            return Err("Invalid Variable, Usage: save <name> = <var>".to_owned());
        }
        let t2 = &tokens[*pos + 1];
        if t2.token_type != TokenType::EQUAL {
            return Err("Invalid Variable, Usage: save <name> = <var>".to_owned());
        }
        *pos += 2;
        match NodeExpr::parse(tokens, pos, vars) {
            Err(e) => Err(e),
            Ok(expr) => match lookup_var(vars, &name) {
                Some(_) => Err(
                    "Variable ".to_owned().concat(name.as_str()).concat(" is declared twice"),
                ),
                None => Ok(NodeVar { name, expr }),
            },
        }
    }
}

/// Parses a whole token sequence into statement nodes: `exit` statements in
/// source order, then one `Var` node per binding in declaration order; or
/// the first error, which discards all work.
pub fn parse_tokens(tokens: Vec<Token>) -> (r: Result<Vec<Node>, String>)
    ensures
        match r {
            Ok(nodes) => spec_parse(tokens.deep_view()) == Ok::<Seq<SpecNode>, Seq<char>>(
                nodes.deep_view(),
            ),
            Err(m) => spec_parse(tokens.deep_view()) == Err::<Seq<SpecNode>, Seq<char>>(m@),
        },
{
    let ghost tv = tokens.deep_view();
    let mut pos: usize = 0;
    let mut vars: Vec<NodeVar> = Vec::new();
    let mut nodes: Vec<Node> = Vec::new();
    proof {
        assert(vars.deep_view() =~= Seq::<SpecVar>::empty());
        assert(nodes.deep_view() =~= Seq::<SpecNode>::empty());
    }
    while pos < tokens.len()
        invariant
            tv == tokens.deep_view(),
            tv.len() == tokens@.len(),
            pos <= tokens@.len(),
            spec_parse(tv) == spec_parse_tokens_from(
                tv,
                pos as int,
                vars.deep_view(),
                nodes.deep_view(),
            ),
        decreases tokens@.len() - pos,
    {
        let ghost pos0 = pos as int;
        let ghost vars0 = vars.deep_view();
        let ghost nodes0 = nodes.deep_view();
        let kind = tokens[pos].token_type;
        match kind {
            TokenType::EXIT => {
                pos += 1;
                match NodeExit::parse(&tokens, &mut pos, &vars) {
                    Ok(exit_node) => {
                        let ghost ev = exit_node@;
                        nodes.push(Node::Exit(exit_node));
                        proof {
                            assert(nodes.deep_view() =~= nodes0.push(SpecNode::Exit(ev)));
                        }
                    },
                    Err(err) => {
                        return Err(err);
                    },
                }
            },
            TokenType::VARIABLE => {
                pos += 1;
                match NodeVar::parse(&tokens, &mut pos, &vars) {
                    Ok(var_node) => {
                        let ghost vv = var_node@;
                        vars.push(var_node);
                        proof {
                            assert(vars.deep_view() =~= vars0.push(vv));
                        }
                    },
                    Err(err) => {
                        return Err(err);
                    },
                }
            },
            TokenType::SEMICOLON => {
                pos += 1;
            },
            TokenType::UNKNOWN => {
                return Err("Encountered invalid token".to_owned());
            },
            _ => {
                return Err("Unsupported token at top level".to_owned());
            },
        }
    }
    let ghost vfinal = vars.deep_view();
    let ghost nmid = nodes.deep_view();
    proof {
        assert(spec_parse(tv) == Ok::<Seq<SpecNode>, Seq<char>>(
            nmid + vfinal.map_values(|v: SpecVar| SpecNode::Var(v)),
        ));
    }
    while vars.len() > 0
        invariant
            nodes.deep_view() + vars.deep_view().map_values(|v: SpecVar| SpecNode::Var(v)) == nmid
                + vfinal.map_values(|v: SpecVar| SpecNode::Var(v)),
        decreases vars@.len(),
    {
        let ghost vb = vars.deep_view();
        let ghost nb = nodes.deep_view();
        let v = vars.remove(0);
        nodes.push(Node::Var(v));
        proof {
            let f = |v: SpecVar| SpecNode::Var(v);
            assert(vars.deep_view() =~= vb.skip(1));
            assert(nodes.deep_view() =~= nb.push(f(vb[0])));
            assert(nb.push(f(vb[0])) + vb.skip(1).map_values(f) =~= nb + vb.map_values(f));
        }
    }
    proof {
        assert(vars.deep_view().map_values(|v: SpecVar| SpecNode::Var(v))
            =~= Seq::<SpecNode>::empty());
        assert(nodes.deep_view() + Seq::<SpecNode>::empty() =~= nodes.deep_view());
    }
    Ok(nodes)
}

} // verus!
