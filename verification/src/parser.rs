use vstd::prelude::*;
use vstd::string::StrSliceExecFns;
use vstd::string::StringExecFns;

use crate::ast::{op_prec_spec, expr_view, stmt_view, ENodeV, ExprV, Expression, ExpressionNode,
    Operator, SNodeV, Statement, StatementNode, StmtV};
use crate::position::{PosV, Position};
use crate::text::str_eq;
use crate::token::{TokV, Token, TokenType};

verus! {

/// What went wrong during a parse. `CursorOverrun` is the internal,
/// defensive kind: it signals a bug in the parser itself, not bad input.
#[derive(Debug, Clone, Copy, PartialEq, Eq, Structural)]
pub enum ParseErrorKind {
    UnexpectedToken,
    UnterminatedOperation,
    MalformedTerminator,
    ExpectedLexeme,
    ExpectedType,
    CursorOverrun,
}

/// A terminal diagnostic: message, source-file identifier, and the position
/// to render (absent for the positionless expectation checks).
#[derive(Debug, Clone, PartialEq)]
pub struct ParseError {
    pub kind: ParseErrorKind,
    pub message: String,
    pub file: String,
    pub position: Option<Position>,
}

pub ghost struct ErrV {
    pub kind: ParseErrorKind,
    pub message: Seq<char>,
    pub file: Seq<char>,
    pub position: Option<PosV>,
}

impl View for ParseError {
    type V = ErrV;

    open spec fn view(&self) -> ErrV {
        ErrV {
            kind: self.kind,
            message: self.message@,
            file: self.file@,
            position: match self.position {
                Option::Some(p) => Option::Some(p@),
                Option::None => Option::None,
            },
        }
    }
}

pub open spec fn toks_of(ts: Seq<Token>) -> Seq<TokV> {
    ts.map_values(|t: Token| t@)
}

pub open spec fn evs(s: Seq<Expression>) -> Seq<ExprV> {
    s.map_values(|e: Expression| expr_view(e))
}

pub open spec fn stvs(s: Seq<Statement>) -> Seq<StmtV> {
    s.map_values(|st: Statement| stmt_view(st))
}

/// The token under the cursor, clamped to the last token once the cursor has
/// run past the end of the stream.
pub open spec fn cur_tok(toks: Seq<TokV>, i: int) -> TokV {
    if i > toks.len() - 1 {
        toks[toks.len() - 1]
    } else {
        toks[i]
    }
}

pub open spec fn pos_of(t: TokV) -> PosV {
    PosV {
        line_number: t.line_number,
        line_text: t.line_text,
        start_column: t.start_column,
        end_column: t.end_column,
    }
}

/// The span from the start of `left` to the end column of `cur`, clipped to
/// the length of `left`'s line and floored at `left`'s start column, so a
/// well-formed left position always yields a well-formed span.
pub open spec fn spec_span(left: PosV, cur: PosV) -> PosV {
    let clipped = if cur.end_column < left.line_text.len() {
        cur.end_column
    } else {
        left.line_text.len() as int
    };
    PosV {
        line_number: left.line_number,
        line_text: left.line_text,
        start_column: left.start_column,
        end_column: if clipped < left.start_column {
            left.start_column
        } else {
            clipped
        },
    }
}

/// The scanner's side of the input contract: positions lie within their
/// line, `Char` lexemes are non-empty (delimiters included), and `Operator`
/// lexemes are drawn from the operator table.
pub open spec fn token_wf(t: TokV) -> bool {
    &&& 1 <= t.line_number
    &&& 0 <= t.start_column <= t.end_column <= t.line_text.len()
    &&& (t.token_type == TokenType::Char ==> t.lexeme.len() >= 1)
    &&& (t.token_type == TokenType::Operator ==> op_prec_spec(t.lexeme) is Some)
}

pub open spec fn tokens_wf(toks: Seq<TokV>) -> bool {
    forall|k: int| 0 <= k < toks.len() ==> token_wf(#[trigger] toks[k])
}

pub open spec fn overrun_err(file: Seq<char>, p: PosV) -> ErrV {
    ErrV {
        kind: ParseErrorKind::CursorOverrun,
        message: "moving outside token stack"@,
        file,
        position: Option::Some(p),
    }
}

pub open spec fn unexpected_token_msg(tt: TokenType) -> Seq<char> {
    "unexpected token `"@ + tt.spec_name() + "`"@
}

pub open spec fn expected_newline_msg(lexeme: Seq<char>) -> Seq<char> {
    "expected new line found: `"@ + lexeme + "`"@
}

pub open spec fn expected_found_msg(want: Seq<char>, found: Seq<char>) -> Seq<char> {
    "expected `"@ + want + "`, found `"@ + found + "`"@
}

/// Advancing the cursor: fails with the internal cursor-overrun error as
/// soon as the cursor is already at or past one-past-the-end.
pub open spec fn spec_next(toks: Seq<TokV>, file: Seq<char>, i: int) -> Result<int, ErrV> {
    if i < toks.len() {
        Ok(i + 1)
    } else {
        Err(overrun_err(file, pos_of(cur_tok(toks, i))))
    }
}

/// Reading the current (clamped) lexeme and advancing.
pub open spec fn spec_eat(toks: Seq<TokV>, file: Seq<char>, i: int) -> Result<
    (Seq<char>, int),
    ErrV,
> {
    match spec_next(toks, file, i) {
        Ok(i1) => Ok((cur_tok(toks, i).lexeme, i1)),
        Err(e) => Err(e),
    }
}

pub open spec fn is_leaf(tt: TokenType) -> bool {
    ||| tt == TokenType::Number
    ||| tt == TokenType::Char
    ||| tt == TokenType::Text
    ||| tt == TokenType::Identifier
    ||| tt == TokenType::Bool
}

/// The expression a single leaf token denotes. A boolean lexeme counts as
/// true exactly when it is the affirmative keyword; anything else is false.
pub open spec fn leaf_node(t: TokV) -> ENodeV {
    match t.token_type {
        TokenType::Number => ENodeV::Number(t.lexeme),
        TokenType::Char => ENodeV::Char(t.lexeme.last()),
        TokenType::Text => ENodeV::Text(t.lexeme),
        TokenType::Identifier => ENodeV::Identifier(t.lexeme),
        TokenType::Bool => ENodeV::Bool(t.lexeme == "yes"@),
        _ => ENodeV::EOF,
    }
}

/// One atom: the end-of-input sentinel when nothing remains, a leaf for the
/// leaf categories, and the unexpected-token diagnostic otherwise.
pub open spec fn spec_parse_atom(toks: Seq<TokV>, file: Seq<char>, i: int) -> Result<
    (ExprV, int),
    ErrV,
> {
    if toks.len() - i <= 0 {
        Ok((ExprV { node: ENodeV::EOF, pos: pos_of(cur_tok(toks, i)) }, i))
    } else if is_leaf(toks[i].token_type) {
        Ok((ExprV { node: leaf_node(toks[i]), pos: pos_of(toks[i]) }, i + 1))
    } else {
        Err(ErrV {
            kind: ParseErrorKind::UnexpectedToken,
            message: unexpected_token_msg(toks[i].token_type),
            file,
            position: Option::Some(pos_of(toks[i])),
        })
    }
}

/// Folding the two topmost pending operands with the topmost pending
/// operator into one binary node positioned at `p`.
pub open spec fn fold_top(exprs: Seq<ExprV>, ops: Seq<(Operator, u8)>, p: PosV) -> Seq<ExprV> {
    exprs.take(exprs.len() - 2).push(ExprV {
        node: ENodeV::Binary(
            Box::new(exprs[exprs.len() - 2]),
            ops.last().0,
            Box::new(exprs.last()),
        ),
        pos: p,
    })
}

/// The unterminated-operation diagnostic: input exhausted while a binary
/// fold still needed a right-hand operand, anchored at the operator that
/// went without one.
pub open spec fn unterminated_err(file: Seq<char>, p: PosV) -> ErrV {
    ErrV {
        kind: ParseErrorKind::UnterminatedOperation,
        message: "reached EOF in operation"@,
        file,
        position: Option::Some(p),
    }
}

/// The dual-stack precedence-resolution loop. While an operator token is
/// under the cursor, the operator and its right-hand operand are consumed;
/// an operand that comes back as the end-of-input sentinel is the
/// unterminated-operation failure. An operator binding no tighter than the
/// stack's top folds the stack first (so runs of equal precedence group
/// left-to-right); one binding tighter is stacked unfolded. With no operator
/// under the cursor one fold is performed per remaining stacked operator.
pub open spec fn spec_bin_loop(
    toks: Seq<TokV>,
    file: Seq<char>,
    i: int,
    exprs: Seq<ExprV>,
    ops: Seq<(Operator, u8)>,
) -> Result<(ExprV, int), ErrV>
    decreases toks.len() + 2 - i, ops.len(),
        when 0 <= i <= toks.len() + 1 && toks.len() >= 1
{
    if ops.len() == 0 {
        Ok((exprs.last(), i))
    } else if cur_tok(toks, i).token_type == TokenType::Operator {
        let err_pos = pos_of(cur_tok(toks, i));
        match spec_eat(toks, file, i) {
            Err(e) => Err(e),
            Ok((lex, i1)) => {
                let (op, prec) = op_prec_spec(lex).unwrap();
                match spec_parse_atom(toks, file, i1) {
                    Err(e) => Err(e),
                    Ok((a, i2)) => if a.node is EOF {
                        Err(unterminated_err(file, err_pos))
                    } else if prec <= ops.last().1 {
                        spec_bin_loop(
                            toks,
                            file,
                            i2,
                            fold_top(exprs, ops, pos_of(cur_tok(toks, i1))).push(a),
                            ops.drop_last().push((op, prec)),
                        )
                    } else {
                        spec_bin_loop(toks, file, i2, exprs.push(a), ops.push((op, prec)))
                    },
                }
            },
        }
    } else {
        spec_bin_loop(toks, file, i, fold_top(exprs, ops, pos_of(cur_tok(toks, i))), ops.drop_last())
    }
}

/// Binary resolution entered with `left` already read and an operator token
/// under the cursor: seed the stacks, run the loop, and re-span the result
/// from `left`'s start to the finishing token's end.
pub open spec fn spec_parse_binary(toks: Seq<TokV>, file: Seq<char>, i: int, left: ExprV) -> Result<
    (ExprV, int),
    ErrV,
> {
    let err_pos = pos_of(cur_tok(toks, i));
    match spec_eat(toks, file, i) {
        Err(e) => Err(e),
        Ok((lex0, i1)) => match spec_parse_atom(toks, file, i1) {
            Err(e) => Err(e),
            Ok((a0, i2)) => if a0.node is EOF {
                Err(unterminated_err(file, err_pos))
            } else {
                match spec_bin_loop(
                    toks,
                    file,
                    i2,
                    seq![left, a0],
                    seq![op_prec_spec(lex0).unwrap()],
                ) {
                    Err(e) => Err(e),
                    Ok((e, j)) => Ok((
                        ExprV { node: e.node, pos: spec_span(left.pos, pos_of(cur_tok(toks, j))) },
                        j,
                    )),
                }
            },
        },
    }
}

/// One expression: an atom, then binary resolution if an operator follows.
pub open spec fn spec_parse_expression(toks: Seq<TokV>, file: Seq<char>, i: int) -> Result<
    (ExprV, int),
    ErrV,
> {
    match spec_parse_atom(toks, file, i) {
        Err(e) => Err(e),
        Ok((a, j)) => if cur_tok(toks, j).token_type == TokenType::Operator {
            spec_parse_binary(toks, file, j, a)
        } else {
            Ok((a, j))
        },
    }
}

/// Skipping line terminators, but only while tokens remain.
pub open spec fn skip_eols(toks: Seq<TokV>, i: int) -> int
    decreases toks.len() - i,
        when 0 <= i
{
    if toks.len() - i > 0 && cur_tok(toks, i).token_type == TokenType::EOL {
        skip_eols(toks, i + 1)
    } else {
        i
    }
}

/// The statement terminator: a newline lexeme is consumed; end of input
/// doubles as an implicit terminator; anything else is the terminator
/// diagnostic.
pub open spec fn spec_new_line(toks: Seq<TokV>, file: Seq<char>, i: int) -> Result<int, ErrV> {
    if toks.len() - i > 0 {
        if cur_tok(toks, i).lexeme == "\n"@ {
            Ok(i + 1)
        } else {
            Err(ErrV {
                kind: ParseErrorKind::MalformedTerminator,
                message: expected_newline_msg(cur_tok(toks, i).lexeme),
                file,
                position: Option::Some(pos_of(cur_tok(toks, i))),
            })
        }
    } else {
        Ok(i)
    }
}

/// One statement: skip leading line terminators, parse an expression, then
/// branch on the current lexeme (`=` assignment, `:` table header, plain
/// expression otherwise), and finally require a terminator.
pub open spec fn spec_parse_statement(toks: Seq<TokV>, file: Seq<char>, i: int) -> Result<
    (StmtV, int),
    ErrV,
> {
    let i0 = skip_eols(toks, i);
    match spec_parse_expression(toks, file, i0) {
        Err(e) => Err(e),
        Ok((expr, i1)) => {
            let after: Result<(StmtV, int), ErrV> = if cur_tok(toks, i1).lexeme == "="@ {
                match spec_next(toks, file, i1) {
                    Err(e) => Err(e),
                    Ok(i2) => match spec_parse_expression(toks, file, i2) {
                        Err(e) => Err(e),
                        Ok((value, i3)) => Ok((
                            StmtV {
                                node: SNodeV::Assignment(expr, value),
                                pos: spec_span(expr.pos, pos_of(cur_tok(toks, i3))),
                            },
                            i3,
                        )),
                    },
                }
            } else if cur_tok(toks, i1).lexeme == ":"@ {
                match spec_next(toks, file, i1) {
                    Err(e) => Err(e),
                    Ok(i2) => Ok((
                        StmtV {
                            node: SNodeV::Table(expr),
                            pos: spec_span(expr.pos, pos_of(cur_tok(toks, i2))),
                        },
                        i2,
                    )),
                }
            } else {
                Ok((StmtV { node: SNodeV::Expression(expr), pos: expr.pos }, i1))
            };
            match after {
                Err(e) => Err(e),
                Ok((stmt, i4)) => match spec_new_line(toks, file, i4) {
                    Err(e) => Err(e),
                    Ok(i5) => Ok((stmt, i5)),
                },
            }
        },
    }
}

proof fn lemma_skip_eols_bounds(toks: Seq<TokV>, i: int)
    requires
        0 <= i,
    ensures
        i <= skip_eols(toks, i),
        i <= toks.len() ==> skip_eols(toks, i) <= toks.len(),
        i > toks.len() ==> skip_eols(toks, i) == i,
    decreases toks.len() - i,
{
    if toks.len() - i > 0 && cur_tok(toks, i).token_type == TokenType::EOL {
        lemma_skip_eols_bounds(toks, i + 1);
    }
}

proof fn lemma_bin_loop_bounds(
    toks: Seq<TokV>,
    file: Seq<char>,
    i: int,
    exprs: Seq<ExprV>,
    ops: Seq<(Operator, u8)>,
)
    requires
        0 <= i <= toks.len() + 1,
        toks.len() >= 1,
    ensures
        match spec_bin_loop(toks, file, i, exprs, ops) {
            Ok((_, j)) => i <= j <= toks.len() + 1,
            Err(_) => true,
        },
    decreases toks.len() + 2 - i, ops.len(),
{
    if ops.len() == 0 {
    } else if cur_tok(toks, i).token_type == TokenType::Operator {
        if i < toks.len() {
            let lex = cur_tok(toks, i).lexeme;
            let i1 = i + 1;
            let (op, prec) = op_prec_spec(lex).unwrap();
            match spec_parse_atom(toks, file, i1) {
                Ok((a, i2)) => {
                    if a.node is EOF {
                    } else if prec <= ops.last().1 {
                        lemma_bin_loop_bounds(
                            toks,
                            file,
                            i2,
                            fold_top(exprs, ops, pos_of(cur_tok(toks, i1))).push(a),
                            ops.drop_last().push((op, prec)),
                        );
                    } else {
                        lemma_bin_loop_bounds(toks, file, i2, exprs.push(a), ops.push((op, prec)));
                    }
                },
                Err(_) => {},
            }
        }
    } else {
        lemma_bin_loop_bounds(
            toks,
            file,
            i,
            fold_top(exprs, ops, pos_of(cur_tok(toks, i))),
            ops.drop_last(),
        );
    }
}

proof fn lemma_parse_expression_bounds(toks: Seq<TokV>, file: Seq<char>, i: int)
    requires
        0 <= i <= toks.len() + 1,
        toks.len() >= 1,
    ensures
        match spec_parse_expression(toks, file, i) {
            Ok((_, j)) => i <= j <= toks.len() + 1 && (i < toks.len() ==> i + 1 <= j),
            Err(_) => true,
        },
{
    match spec_parse_atom(toks, file, i) {
        Ok((a, j)) => {
            if cur_tok(toks, j).token_type == TokenType::Operator {
                if j < toks.len() {
                    match spec_parse_atom(toks, file, j + 1) {
                        Ok((a0, j2)) => {
                            lemma_bin_loop_bounds(
                                toks,
                                file,
                                j2,
                                seq![a, a0],
                                seq![op_prec_spec(cur_tok(toks, j).lexeme).unwrap()],
                            );
                        },
                        Err(_) => {},
                    }
                }
            }
        },
        Err(_) => {},
    }
}

proof fn lemma_parse_statement_advances(toks: Seq<TokV>, file: Seq<char>, i: int)
    requires
        0 <= i < toks.len(),
    ensures
        match spec_parse_statement(toks, file, i) {
            Ok((_, j)) => i + 1 <= j <= toks.len() + 1,
            Err(_) => true,
        },
{
    lemma_skip_eols_bounds(toks, i);
    let i0 = skip_eols(toks, i);
    lemma_parse_expression_bounds(toks, file, i0);
    match spec_parse_expression(toks, file, i0) {
        Ok((expr, i1)) => {
            if cur_tok(toks, i1).lexeme == "="@ {
                match spec_next(toks, file, i1) {
                    Ok(i2) => {
                        lemma_parse_expression_bounds(toks, file, i2);
                    },
                    Err(_) => {},
                }
            }
        },
        Err(_) => {},
    }
}

/// The whole input: statements are parsed and collected while tokens
/// remain; the first failure aborts the parse.
pub open spec fn spec_parse(toks: Seq<TokV>, file: Seq<char>, i: int) -> Result<
    (Seq<StmtV>, int),
    ErrV,
>
    decreases (if i <= toks.len() { toks.len() - i } else { 0 }),
        when 0 <= i
        via spec_parse_decreases
{
    if toks.len() - i <= 0 {
        Ok((Seq::empty(), i))
    } else {
        match spec_parse_statement(toks, file, i) {
            Err(e) => Err(e),
            Ok((s, i1)) => match spec_parse(toks, file, i1) {
                Err(e) => Err(e),
                Ok((rest, j)) => Ok((seq![s] + rest, j)),
            },
        }
    }
}

#[via_fn]
proof fn spec_parse_decreases(toks: Seq<TokV>, file: Seq<char>, i: int) {
    if toks.len() - i > 0 {
        lemma_parse_statement_advances(toks, file, i);
    }
}

/// Every node of the tree carries a well-formed position.
pub open spec fn expr_pos_wf(e: ExprV) -> bool
    decreases e,
{
    &&& e.pos.wf()
    &&& match e.node {
        ENodeV::Binary(l, _, r) => expr_pos_wf(*l) && expr_pos_wf(*r),
        _ => true,
    }
}

pub open spec fn stmt_pos_wf(s: StmtV) -> bool {
    &&& s.pos.wf()
    &&& match s.node {
        SNodeV::Expression(e) => expr_pos_wf(e),
        SNodeV::Assignment(t, v) => expr_pos_wf(t) && expr_pos_wf(v),
        SNodeV::Table(e) => expr_pos_wf(e),
    }
}

pub open spec fn stmts_pos_wf(ss: Seq<StmtV>) -> bool {
    forall|k: int| 0 <= k < ss.len() ==> stmt_pos_wf(#[trigger] ss[k])
}

proof fn lemma_cur_tok_wf(toks: Seq<TokV>, i: int)
    requires
        tokens_wf(toks),
        toks.len() >= 1,
        0 <= i,
    ensures
        token_wf(cur_tok(toks, i)),
        pos_of(cur_tok(toks, i)).wf(),
{
    if i > toks.len() - 1 {
        assert(token_wf(toks[toks.len() - 1]));
    } else {
        assert(token_wf(toks[i]));
    }
}

proof fn lemma_span_wf(left: PosV, cur: PosV)
    requires
        left.wf(),
    ensures
        spec_span(left, cur).wf(),
{
}

proof fn lemma_atom_pos_wf(toks: Seq<TokV>, file: Seq<char>, i: int)
    requires
        tokens_wf(toks),
        toks.len() >= 1,
        0 <= i,
    ensures
        match spec_parse_atom(toks, file, i) {
            Ok((a, _)) => expr_pos_wf(a),
            Err(_) => true,
        },
{
    lemma_cur_tok_wf(toks, i);
    if toks.len() - i > 0 {
        assert(token_wf(toks[i]));
    }
}

proof fn lemma_bin_loop_pos_wf(
    toks: Seq<TokV>,
    file: Seq<char>,
    i: int,
    exprs: Seq<ExprV>,
    ops: Seq<(Operator, u8)>,
)
    requires
        tokens_wf(toks),
        toks.len() >= 1,
        0 <= i <= toks.len() + 1,
        exprs.len() == ops.len() + 1,
        forall|k: int| 0 <= k < exprs.len() ==> expr_pos_wf(#[trigger] exprs[k]),
    ensures
        match spec_bin_loop(toks, file, i, exprs, ops) {
            Ok((e, _)) => expr_pos_wf(e),
            Err(_) => true,
        },
    decreases toks.len() + 2 - i, ops.len(),
{
    if ops.len() == 0 {
    } else if cur_tok(toks, i).token_type == TokenType::Operator {
        if i < toks.len() {
            let i1 = i + 1;
            let (op, prec) = op_prec_spec(cur_tok(toks, i).lexeme).unwrap();
            lemma_atom_pos_wf(toks, file, i1);
            lemma_cur_tok_wf(toks, i1);
            match spec_parse_atom(toks, file, i1) {
                Ok((a, i2)) => {
                    if a.node is EOF {
                    } else if prec <= ops.last().1 {
                        let folded = fold_top(exprs, ops, pos_of(cur_tok(toks, i1)));
                        let grown = folded.push(a);
                        assert forall|k: int| 0 <= k < grown.len() implies expr_pos_wf(
                            #[trigger] grown[k],
                        ) by {
                            if k < exprs.len() - 2 {
                                assert(grown[k] == exprs[k]);
                            }
                        };
                        lemma_bin_loop_pos_wf(
                            toks,
                            file,
                            i2,
                            grown,
                            ops.drop_last().push((op, prec)),
                        );
                    } else {
                        let grown = exprs.push(a);
                        assert forall|k: int| 0 <= k < grown.len() implies expr_pos_wf(
                            #[trigger] grown[k],
                        ) by {
                            if k < exprs.len() {
                                assert(grown[k] == exprs[k]);
                            }
                        };
                        lemma_bin_loop_pos_wf(toks, file, i2, grown, ops.push((op, prec)));
                    }
                },
                Err(_) => {},
            }
        }
    } else {
        lemma_cur_tok_wf(toks, i);
        let folded = fold_top(exprs, ops, pos_of(cur_tok(toks, i)));
        assert forall|k: int| 0 <= k < folded.len() implies expr_pos_wf(
            #[trigger] folded[k],
        ) by {
            if k < exprs.len() - 2 {
                assert(folded[k] == exprs[k]);
            }
        };
        lemma_bin_loop_pos_wf(toks, file, i, folded, ops.drop_last());
    }
}

proof fn lemma_parse_binary_pos_wf(toks: Seq<TokV>, file: Seq<char>, i: int, left: ExprV)
    requires
        tokens_wf(toks),
        toks.len() >= 1,
        0 <= i,
        expr_pos_wf(left),
    ensures
        match spec_parse_binary(toks, file, i, left) {
            Ok((e, _)) => expr_pos_wf(e),
            Err(_) => true,
        },
{
    if i < toks.len() {
        let i1 = i + 1;
        lemma_atom_pos_wf(toks, file, i1);
        match spec_parse_atom(toks, file, i1) {
            Ok((a0, i2)) => {
                if !(a0.node is EOF) {
                    let seeded = seq![left, a0];
                    assert(seeded[0] == left);
                    assert(seeded[1] == a0);
                    lemma_bin_loop_pos_wf(
                        toks,
                        file,
                        i2,
                        seeded,
                        seq![op_prec_spec(cur_tok(toks, i).lexeme).unwrap()],
                    );
                    match spec_bin_loop(
                        toks,
                        file,
                        i2,
                        seeded,
                        seq![op_prec_spec(cur_tok(toks, i).lexeme).unwrap()],
                    ) {
                        Ok((e, j)) => {
                            lemma_span_wf(left.pos, pos_of(cur_tok(toks, j)));
                        },
                        Err(_) => {},
                    }
                }
            },
            Err(_) => {},
        }
    }
}

proof fn lemma_parse_expression_pos_wf(toks: Seq<TokV>, file: Seq<char>, i: int)
    requires
        tokens_wf(toks),
        toks.len() >= 1,
        0 <= i,
    ensures
        match spec_parse_expression(toks, file, i) {
            Ok((e, _)) => expr_pos_wf(e),
            Err(_) => true,
        },
{
    lemma_atom_pos_wf(toks, file, i);
    match spec_parse_atom(toks, file, i) {
        Ok((a, j)) => {
            if cur_tok(toks, j).token_type == TokenType::Operator {
                lemma_parse_binary_pos_wf(toks, file, j, a);
            }
        },
        Err(_) => {},
    }
}

proof fn lemma_parse_statement_pos_wf(toks: Seq<TokV>, file: Seq<char>, i: int)
    requires
        tokens_wf(toks),
        toks.len() >= 1,
        0 <= i,
    ensures
        match spec_parse_statement(toks, file, i) {
            Ok((s, _)) => stmt_pos_wf(s),
            Err(_) => true,
        },
{
    lemma_skip_eols_bounds(toks, i);
    let i0 = skip_eols(toks, i);
    if i0 <= toks.len() + 1 {
        lemma_parse_expression_bounds(toks, file, i0);
    }
    lemma_parse_expression_pos_wf(toks, file, i0);
    match spec_parse_expression(toks, file, i0) {
        Ok((expr, i1)) => {
            if cur_tok(toks, i1).lexeme == "="@ {
                if i1 < toks.len() {
                    lemma_parse_expression_pos_wf(toks, file, i1 + 1);
                    match spec_parse_expression(toks, file, i1 + 1) {
                        Ok((value, i3)) => {
                            lemma_span_wf(expr.pos, pos_of(cur_tok(toks, i3)));
                        },
                        Err(_) => {},
                    }
                }
            } else if cur_tok(toks, i1).lexeme == ":"@ {
                if i1 < toks.len() {
                    lemma_span_wf(expr.pos, pos_of(cur_tok(toks, i1 + 1)));
                }
            }
        },
        Err(_) => {},
    }
}

/// Every position in a parsed statement sequence is well-formed, provided
/// every input token's position was: spans keep the left line and clip into
/// it, and every other node position is a token's own.
pub proof fn lemma_parse_pos_wf(toks: Seq<TokV>, file: Seq<char>, i: int)
    requires
        tokens_wf(toks),
        0 <= i,
    ensures
        match spec_parse(toks, file, i) {
            Ok((ss, _)) => stmts_pos_wf(ss),
            Err(_) => true,
        },
    decreases (if i <= toks.len() { toks.len() - i } else { 0int }),
{
    if toks.len() - i > 0 {
        lemma_parse_statement_pos_wf(toks, file, i);
        lemma_parse_statement_advances(toks, file, i);
        match spec_parse_statement(toks, file, i) {
            Ok((s, i1)) => {
                lemma_parse_pos_wf(toks, file, i1);
                match spec_parse(toks, file, i1) {
                    Ok((rest, _)) => {
                        let whole = seq![s] + rest;
                        assert forall|k: int| 0 <= k < whole.len() implies stmt_pos_wf(
                            #[trigger] whole[k],
                        ) by {
                            if k > 0 {
                                assert(stmt_pos_wf(rest[k - 1]));
                            }
                        };
                    },
                    Err(_) => {},
                }
            },
            Err(_) => {},
        }
    }
}

/// A pull-based cursor over a fully materialised token stream. One parser
/// instance serves one stream; the parser owns its tokens and its cursor for
/// the whole parse.
pub struct Parser {
    pub tokens: Vec<Token>,
    pub index: usize,
    pub file: String,
}

impl Parser {
    pub open spec fn toks(self) -> Seq<TokV> {
        toks_of(self.tokens@)
    }

    pub open spec fn filev(self) -> Seq<char> {
        self.file@
    }

    pub open spec fn at(self) -> int {
        self.index as int
    }

    /// The cursor never strays past one-past-the-end.
    pub open spec fn inv(self) -> bool {
        self.at() <= self.toks().len()
    }

    pub open spec fn wf_input(self) -> bool {
        tokens_wf(self.toks())
    }

    pub fn new(tokens: Vec<Token>, file: &str) -> (p: Parser)
        ensures
            p.toks() == toks_of(tokens@),
            p.filev() == file@,
            p.at() == 0,
            p.inv(),
    {
        Parser { tokens, index: 0, file: file.to_owned() }
    }

    /// Count of tokens left under and after the cursor, saturating at zero.
    pub fn remaining(&self) -> (n: usize)
        ensures
            n == if self.toks().len() - self.at() >= 0 {
                self.toks().len() - self.at()
            } else {
                0int
            },
    {
        if self.index <= self.tokens.len() {
            self.tokens.len() - self.index
        } else {
            0
        }
    }

    /// The token under the cursor, clamped to the last token so that callers
    /// never index out of bounds.
    pub fn current(&self) -> (t: &Token)
        requires
            self.toks().len() >= 1,
        ensures
            t@ == cur_tok(self.toks(), self.at()),
    {
        if self.index > self.tokens.len() - 1 {
            &self.tokens[self.tokens.len() - 1]
        } else {
            &self.tokens[self.index]
        }
    }

    pub fn current_lexeme(&self) -> (s: String)
        requires
            self.toks().len() >= 1,
        ensures
            s@ == cur_tok(self.toks(), self.at()).lexeme,
    {
        self.current().lexeme.clone()
    }

    pub fn current_type(&self) -> (tt: TokenType)
        requires
            self.toks().len() >= 1,
        ensures
            tt == cur_tok(self.toks(), self.at()).token_type,
    {
        self.current().token_type
    }

    /// The position of the token under the (clamped) cursor.
    pub fn current_position(&self) -> (p: Position)
        requires
            self.toks().len() >= 1,
        ensures
            p@ == pos_of(cur_tok(self.toks(), self.at())),
    {
        let t = self.current();
        Position {
            line_number: t.line.0,
            line_text: t.line.1.clone(),
            start_column: t.slice.0,
            end_column: t.slice.1,
        }
    }

    fn error_at(&self, kind: ParseErrorKind, message: String) -> (e: ParseError)
        requires
            self.toks().len() >= 1,
        ensures
            e@ == (ErrV {
                kind,
                message: message@,
                file: self.filev(),
                position: Option::Some(pos_of(cur_tok(self.toks(), self.at()))),
            }),
    {
        ParseError {
            kind,
            message,
            file: self.file.clone(),
            position: Some(self.current_position()),
        }
    }

    /// Advances the cursor, or reports the internal cursor-overrun failure
    /// once the cursor is already at or past one-past-the-end.
    pub fn next(&mut self) -> (r: Result<(), ParseError>)
        requires
            old(self).inv(),
            old(self).toks().len() >= 1,
        ensures
            final(self).toks() == old(self).toks(),
            final(self).filev() == old(self).filev(),
            final(self).inv(),
            match r {
                Ok(()) => spec_next(old(self).toks(), old(self).filev(), old(self).at())
                    == Ok::<int, ErrV>(final(self).at()),
                Err(e) => spec_next(old(self).toks(), old(self).filev(), old(self).at())
                    == Err::<int, ErrV>(e@) && final(self).at() == old(self).at(),
            },
    {
        if self.index < self.tokens.len() {
            self.index = self.index + 1;
            Ok(())
        } else {
            Err(self.error_at(
                ParseErrorKind::CursorOverrun,
                String::from_str("moving outside token stack"),
            ))
        }
    }

    /// Reads the current lexeme and advances.
    pub fn eat(&mut self) -> (r: Result<String, ParseError>)
        requires
            old(self).inv(),
            old(self).toks().len() >= 1,
        ensures
            final(self).toks() == old(self).toks(),
            final(self).filev() == old(self).filev(),
            final(self).inv(),
            match r {
                Ok(lex) => spec_eat(old(self).toks(), old(self).filev(), old(self).at())
                    == Ok::<(Seq<char>, int), ErrV>((lex@, final(self).at())),
                Err(e) => spec_eat(old(self).toks(), old(self).filev(), old(self).at())
                    == Err::<(Seq<char>, int), ErrV>(e@) && final(self).at() == old(self).at(),
            },
    {
        let lexeme = self.current_lexeme();
        match self.next() {
            Ok(()) => Ok(lexeme),
            Err(e) => Err(e),
        }
    }

    /// Reads the current lexeme and advances, provided the lexeme is the
    /// expected one.
    pub fn eat_lexeme(&mut self, lexeme: &str) -> (r: Result<String, ParseError>)
        requires
            old(self).inv(),
            old(self).toks().len() >= 1,
        ensures
            final(self).toks() == old(self).toks(),
            final(self).filev() == old(self).filev(),
            final(self).inv(),
            match r {
                Ok(got) => {
                    let cur = cur_tok(old(self).toks(), old(self).at());
                    cur.lexeme == lexeme@ && old(self).at() < old(self).toks().len() && got@
                        == cur.lexeme && final(self).at() == old(self).at() + 1
                },
                Err(e) => {
                    let cur = cur_tok(old(self).toks(), old(self).at());
                    final(self).at() == old(self).at() && (if cur.lexeme != lexeme@ {
                        e@ == (ErrV {
                            kind: ParseErrorKind::ExpectedLexeme,
                            message: expected_found_msg(lexeme@, cur.lexeme),
                            file: old(self).filev(),
                            position: Option::Some(pos_of(cur)),
                        })
                    } else {
                        old(self).at() >= old(self).toks().len() && e@ == overrun_err(
                            old(self).filev(),
                            pos_of(cur),
                        )
                    })
                },
            },
    {
        let cur = self.current_lexeme();
        if str_eq(cur.as_str(), lexeme) {
            match self.next() {
                Ok(()) => Ok(cur),
                Err(e) => Err(e),
            }
        } else {
            let msg = String::from_str("expected `").concat(lexeme).concat("`, found `").concat(
                cur.as_str(),
            ).concat("`");
            Err(self.error_at(ParseErrorKind::ExpectedLexeme, msg))
        }
    }

    /// Reads the current lexeme and advances, provided the token has the
    /// expected category.
    pub fn eat_type(&mut self, token_type: &TokenType) -> (r: Result<String, ParseError>)
        requires
            old(self).inv(),
            old(self).toks().len() >= 1,
        ensures
            final(self).toks() == old(self).toks(),
            final(self).filev() == old(self).filev(),
            final(self).inv(),
            match r {
                Ok(got) => {
                    let cur = cur_tok(old(self).toks(), old(self).at());
                    cur.token_type == token_type && old(self).at() < old(self).toks().len()
                        && got@ == cur.lexeme && final(self).at() == old(self).at() + 1
                },
                Err(e) => {
                    let cur = cur_tok(old(self).toks(), old(self).at());
                    final(self).at() == old(self).at() && (if cur.token_type != token_type {
                        e@ == (ErrV {
                            kind: ParseErrorKind::ExpectedType,
                            message: expected_found_msg(
                                token_type.spec_name(),
                                cur.token_type.spec_name(),
                            ),
                            file: old(self).filev(),
                            position: Option::Some(pos_of(cur)),
                        })
                    } else {
                        old(self).at() >= old(self).toks().len() && e@ == overrun_err(
                            old(self).filev(),
                            pos_of(cur),
                        )
                    })
                },
            },
    {
        if self.current_type() == *token_type {
            let lexeme = self.current_lexeme();
            match self.next() {
                Ok(()) => Ok(lexeme),
                Err(e) => Err(e),
            }
        } else {
            let msg = String::from_str("expected `").concat(token_type.name().as_str()).concat(
                "`, found `",
            ).concat(self.current_type().name().as_str()).concat("`");
            Err(self.error_at(ParseErrorKind::ExpectedType, msg))
        }
    }

    /// Pure check that the current token has the expected category.
    pub fn expect_type(&self, token_type: TokenType) -> (r: Result<(), ParseError>)
        requires
            self.toks().len() >= 1,
        ensures
            match r {
                Ok(()) => cur_tok(self.toks(), self.at()).token_type == token_type,
                Err(e) => {
                    let cur = cur_tok(self.toks(), self.at());
                    cur.token_type != token_type && e@ == (ErrV {
                        kind: ParseErrorKind::ExpectedType,
                        message: expected_found_msg(
                            token_type.spec_name(),
                            cur.token_type.spec_name(),
                        ),
                        file: self.filev(),
                        position: Option::None,
                    })
                },
            },
    {
        if self.current_type() == token_type {
            Ok(())
        } else {
            let msg = String::from_str("expected `").concat(token_type.name().as_str()).concat(
                "`, found `",
            ).concat(self.current_type().name().as_str()).concat("`");
            Err(ParseError {
                kind: ParseErrorKind::ExpectedType,
                message: msg,
                file: self.file.clone(),
                position: None,
            })
        }
    }

    /// Pure check that the current token carries the expected lexeme.
    pub fn expect_lexeme(&self, lexeme: &str) -> (r: Result<(), ParseError>)
        requires
            self.toks().len() >= 1,
        ensures
            match r {
                Ok(()) => cur_tok(self.toks(), self.at()).lexeme == lexeme@,
                Err(e) => {
                    let cur = cur_tok(self.toks(), self.at());
                    cur.lexeme != lexeme@ && e@ == (ErrV {
                        kind: ParseErrorKind::ExpectedLexeme,
                        message: expected_found_msg(lexeme@, cur.lexeme),
                        file: self.filev(),
                        position: Option::None,
                    })
                },
            },
    {
        let cur = self.current_lexeme();
        if str_eq(cur.as_str(), lexeme) {
            Ok(())
        } else {
            let msg = String::from_str("expected `").concat(lexeme).concat("`, found `").concat(
                cur.as_str(),
            ).concat("`");
            Err(ParseError {
                kind: ParseErrorKind::ExpectedLexeme,
                message: msg,
                file: self.file.clone(),
                position: None,
            })
        }
    }

    /// Re-spans from the start of `left_position` to the end of the current
    /// token, clipped to the line's length.
    pub fn span_from(&self, left_position: Position) -> (p: Position)
        requires
            self.toks().len() >= 1,
        ensures
            p@ == spec_span(left_position@, pos_of(cur_tok(self.toks(), self.at()))),
    {
        let cur = self.current_position();
        let line_len = left_position.line_text.as_str().unicode_len();
        let clipped = if cur.end_column < line_len {
            cur.end_column
        } else {
            line_len
        };
        let end = if clipped < left_position.start_column {
            left_position.start_column
        } else {
            clipped
        };
        Position {
            line_number: left_position.line_number,
            line_text: left_position.line_text,
            start_column: left_position.start_column,
            end_column: end,
        }
    }

    /// Consumes the statement terminator: a newline lexeme if tokens remain,
    /// nothing at end of input.
    pub fn new_line(&mut self) -> (r: Result<(), ParseError>)
        requires
            old(self).inv(),
        ensures
            final(self).toks() == old(self).toks(),
            final(self).filev() == old(self).filev(),
            final(self).inv(),
            match r {
                Ok(()) => spec_new_line(old(self).toks(), old(self).filev(), old(self).at())
                    == Ok::<int, ErrV>(final(self).at()),
                Err(e) => spec_new_line(old(self).toks(), old(self).filev(), old(self).at())
                    == Err::<int, ErrV>(e@) && final(self).at() == old(self).at(),
            },
    {
        if self.remaining() > 0 {
            let cur = self.current_lexeme();
            if str_eq(cur.as_str(), "\n") {
                self.next()
            } else {
                let msg = String::from_str("expected new line found: `").concat(cur.as_str())
                    .concat("`");
                Err(self.error_at(ParseErrorKind::MalformedTerminator, msg))
            }
        } else {
            Ok(())
        }
    }

    /// Skips any run of newline lexemes under the cursor.
    pub fn next_newline(&mut self) -> (r: Result<(), ParseError>)
        requires
            old(self).inv(),
            old(self).toks().len() >= 1,
        ensures
            final(self).toks() == old(self).toks(),
            final(self).filev() == old(self).filev(),
            final(self).inv(),
            r is Ok,
            final(self).at() == skip_newlines(old(self).toks(), old(self).at()),
    {
        let ghost t0 = self.toks();
        let ghost i0 = self.at();
        while str_eq(self.current_lexeme().as_str(), "\n") && self.remaining() > 0
            invariant
                self.toks() == t0,
                self.filev() == old(self).filev(),
                self.inv(),
                t0.len() >= 1,
                0 <= self.at(),
                skip_newlines(t0, i0) == skip_newlines(t0, self.at()),
            decreases t0.len() - self.at(),
        {
            match self.next() {
                Ok(()) => (),
                Err(e) => {
                    return Err(e);
                },
            }
        }
        Ok(())
    }
}

impl Parser {
    /// One atom of an expression. With nothing left it yields the
    /// end-of-input sentinel, which callers must treat as a sentinel rather
    /// than an error.
    fn parse_atom(&mut self) -> (r: Result<Expression, ParseError>)
        requires
            old(self).inv(),
            old(self).toks().len() >= 1,
            old(self).wf_input(),
        ensures
            final(self).toks() == old(self).toks(),
            final(self).filev() == old(self).filev(),
            final(self).inv(),
            match r {
                Ok(e) => spec_parse_atom(old(self).toks(), old(self).filev(), old(self).at())
                    == Ok::<(ExprV, int), ErrV>((expr_view(e), final(self).at())),
                Err(e) => spec_parse_atom(old(self).toks(), old(self).filev(), old(self).at())
                    == Err::<(ExprV, int), ErrV>(e@) && final(self).at() == old(self).at(),
            },
    {
        if self.remaining() == 0 {
            Ok(Expression::new(ExpressionNode::EOF, self.current_position()))
        } else {
            let token_type = self.current_type();
            let position = self.current_position();
            match token_type {
                TokenType::Number => {
                    let lex = self.eat()?;
                    Ok(Expression::new(ExpressionNode::Number(lex), position))
                },
                TokenType::Char => {
                    let lex = self.eat()?;
                    let n = lex.as_str().unicode_len();
                    let c = lex.as_str().get_char(n - 1);
                    Ok(Expression::new(ExpressionNode::Char(c), position))
                },
                TokenType::Text => {
                    let lex = self.eat()?;
                    Ok(Expression::new(ExpressionNode::Text(lex), position))
                },
                TokenType::Identifier => {
                    let lex = self.eat()?;
                    Ok(Expression::new(ExpressionNode::Identifier(lex), position))
                },
                TokenType::Bool => {
                    let lex = self.eat()?;
                    Ok(Expression::new(
                        ExpressionNode::Bool(str_eq(lex.as_str(), "yes")),
                        position,
                    ))
                },
                _ => {
                    let msg = String::from_str("unexpected token `").concat(
                        token_type.name().as_str(),
                    ).concat("`");
                    Err(self.error_at(ParseErrorKind::UnexpectedToken, msg))
                },
            }
        }
    }

    /// One expression: an atom, then binary resolution if an operator token
    /// follows.
    fn parse_expression(&mut self) -> (r: Result<Expression, ParseError>)
        requires
            old(self).inv(),
            old(self).toks().len() >= 1,
            old(self).wf_input(),
        ensures
            final(self).toks() == old(self).toks(),
            final(self).filev() == old(self).filev(),
            final(self).inv(),
            match r {
                Ok(e) => spec_parse_expression(old(self).toks(), old(self).filev(), old(self).at())
                    == Ok::<(ExprV, int), ErrV>((expr_view(e), final(self).at())),
                Err(e) => spec_parse_expression(old(self).toks(), old(self).filev(), old(self).at())
                    == Err::<(ExprV, int), ErrV>(e@),
            },
    {
        let atom = self.parse_atom()?;
        if self.current_type() == TokenType::Operator {
            self.parse_binary(atom)
        } else {
            Ok(atom)
        }
    }

    /// Binary resolution by precedence climbing over two explicit stacks,
    /// entered with `left` already read and an operator token under the
    /// cursor.
    #[verifier::loop_isolation(false)]
    fn parse_binary(&mut self, left: Expression) -> (r: Result<Expression, ParseError>)
        requires
            old(self).inv(),
            old(self).toks().len() >= 1,
            old(self).wf_input(),
            cur_tok(old(self).toks(), old(self).at()).token_type == TokenType::Operator,
        ensures
            final(self).toks() == old(self).toks(),
            final(self).filev() == old(self).filev(),
            final(self).inv(),
            match r {
                Ok(e) => spec_parse_binary(
                    old(self).toks(),
                    old(self).filev(),
                    old(self).at(),
                    expr_view(left),
                ) == Ok::<(ExprV, int), ErrV>((expr_view(e), final(self).at())),
                Err(e) => spec_parse_binary(
                    old(self).toks(),
                    old(self).filev(),
                    old(self).at(),
                    expr_view(left),
                ) == Err::<(ExprV, int), ErrV>(e@),
            },
    {
        let ghost t0 = self.toks();
        let ghost f0 = self.filev();
        let ghost i0 = self.at();
        let ghost lv = expr_view(left);
        let left_position = left.pos.clone();

        let mut expression_stack: Vec<Expression> = Vec::new();
        let mut operator_stack: Vec<(Operator, u8)> = Vec::new();
        expression_stack.push(left);
        let first_position = self.current_position();
        let lex0 = self.eat()?;
        let first = match Operator::from_str(lex0.as_str()) {
            Some(p) => p,
            None => unreached(),
        };
        operator_stack.push(first);
        let a0 = self.parse_atom()?;
        if matches!(&a0.node, ExpressionNode::EOF) {
            return Err(ParseError {
                kind: ParseErrorKind::UnterminatedOperation,
                message: String::from_str("reached EOF in operation"),
                file: self.file.clone(),
                position: Some(first_position),
            });
        }
        expression_stack.push(a0);

        let ghost target = spec_bin_loop(t0, f0, self.at(), evs(expression_stack@), operator_stack@);
        proof {
            assert(evs(expression_stack@) =~= seq![lv, expr_view(a0)]);
            assert(operator_stack@ =~= seq![op_prec_spec(cur_tok(t0, i0).lexeme).unwrap()]);
        }

        while operator_stack.len() > 0
            invariant
                self.toks() == t0,
                self.filev() == f0,
                self.inv(),
                self.wf_input(),
                t0.len() >= 1,
                expression_stack@.len() == operator_stack@.len() + 1,
                spec_bin_loop(t0, f0, self.at(), evs(expression_stack@), operator_stack@)
                    == target,
            decreases t0.len() + 2 - self.at(), operator_stack@.len(),
        {
            let ghost at_o = self.at();
            let ghost ops_o = operator_stack@.len();
            while self.current_type() == TokenType::Operator
                invariant
                    self.toks() == t0,
                    self.filev() == f0,
                    self.inv(),
                    self.wf_input(),
                    t0.len() >= 1,
                    at_o <= self.at(),
                    operator_stack@.len() <= ops_o + (self.at() - at_o),
                    operator_stack@.len() >= 1,
                    expression_stack@.len() == operator_stack@.len() + 1,
                    spec_bin_loop(t0, f0, self.at(), evs(expression_stack@), operator_stack@)
                        == target,
                decreases t0.len() + 2 - self.at(),
            {
                let ghost at_b = self.at();
                let ghost e_b = evs(expression_stack@);
                let ghost o_b = operator_stack@;

                let position = self.current_position();
                let lex = self.eat()?;
                let (operator, precedence) = match Operator::from_str(lex.as_str()) {
                    Some(p) => p,
                    None => unreached(),
                };
                let fold_pos = self.current_position();
                let a = self.parse_atom()?;
                if matches!(&a.node, ExpressionNode::EOF) {
                    proof {
                        assert(spec_bin_loop(t0, f0, at_b, e_b, o_b) == Err::<(ExprV, int), ErrV>(
                            unterminated_err(f0, pos_of(cur_tok(t0, at_b)))));
                    }
                    return Err(ParseError {
                        kind: ParseErrorKind::UnterminatedOperation,
                        message: String::from_str("reached EOF in operation"),
                        file: self.file.clone(),
                        position: Some(position),
                    });
                }
                let top_prec = operator_stack[operator_stack.len() - 1].1;
                if precedence <= top_prec {
                    let right = expression_stack.pop().unwrap();
                    let left2 = expression_stack.pop().unwrap();
                    let op_top = operator_stack.pop().unwrap();
                    expression_stack.push(Expression::new(
                        ExpressionNode::Binary(Box::new(left2), op_top.0, Box::new(right)),
                        fold_pos,
                    ));
                    expression_stack.push(a);
                    operator_stack.push((operator, precedence));
                    proof {
                        assert(evs(expression_stack@) =~= fold_top(e_b, o_b, pos_of(cur_tok(t0,
                            at_b + 1))).push(expr_view(a)));
                        assert(operator_stack@ =~= o_b.drop_last().push((operator,
                            precedence)));
                    }
                } else {
                    expression_stack.push(a);
                    operator_stack.push((operator, precedence));
                    proof {
                        assert(evs(expression_stack@) =~= e_b.push(expr_view(a)));
                        assert(operator_stack@ =~= o_b.push((operator, precedence)));
                    }
                }
            }

            let ghost e_c = evs(expression_stack@);
            let ghost o_c = operator_stack@;
            let right = expression_stack.pop().unwrap();
            let left2 = expression_stack.pop().unwrap();
            let op_top = operator_stack.pop().unwrap();
            let fold_pos = self.current_position();
            expression_stack.push(Expression::new(
                ExpressionNode::Binary(Box::new(left2), op_top.0, Box::new(right)),
                fold_pos,
            ));
            proof {
                assert(evs(expression_stack@) =~= fold_top(e_c, o_c, pos_of(cur_tok(t0,
                    self.at()))));
            }
        }

        let ghost e_d = evs(expression_stack@);
        let expression = match expression_stack.pop() {
            Some(e) => e,
            None => unreached(),
        };
        let sp = self.span_from(left_position);
        proof {
            assert(expr_view(expression) == e_d.last());
        }
        Ok(Expression::new(expression.node, sp))
    }
}

impl Parser {
    /// One statement: skip leading line terminators, parse an expression,
    /// then branch on the current lexeme (`=` assignment, `:` table header,
    /// plain expression otherwise), and finally require a terminator.
    #[verifier::loop_isolation(false)]
    pub fn parse_statement(&mut self) -> (r: Result<Statement, ParseError>)
        requires
            old(self).inv(),
            old(self).toks().len() >= 1,
            old(self).wf_input(),
        ensures
            final(self).toks() == old(self).toks(),
            final(self).filev() == old(self).filev(),
            final(self).inv(),
            match r {
                Ok(s) => spec_parse_statement(old(self).toks(), old(self).filev(), old(self).at())
                    == Ok::<(StmtV, int), ErrV>((stmt_view(s), final(self).at())),
                Err(e) => spec_parse_statement(old(self).toks(), old(self).filev(), old(self).at())
                    == Err::<(StmtV, int), ErrV>(e@),
            },
    {
        let ghost t0 = self.toks();
        let ghost f0 = self.filev();
        let ghost i0 = self.at();

        while self.current_type() == TokenType::EOL && self.remaining() != 0
            invariant
                self.toks() == t0,
                self.filev() == f0,
                self.inv(),
                self.wf_input(),
                t0.len() >= 1,
                0 <= self.at(),
                skip_eols(t0, i0) == skip_eols(t0, self.at()),
            decreases t0.len() - self.at(),
        {
            match self.next() {
                Ok(()) => (),
                Err(_) => {
                    return unreached();
                },
            }
        }

        let expression = self.parse_expression()?;
        let position = expression.pos.clone();
        let cur = self.current_lexeme();
        let statement = if str_eq(cur.as_str(), "=") {
            self.next()?;
            let value = self.parse_expression()?;
            let sp = self.span_from(position);
            Statement::new(StatementNode::Assignment(expression, value), sp)
        } else if str_eq(cur.as_str(), ":") {
            self.next()?;
            let sp = self.span_from(position);
            Statement::new(StatementNode::Table(expression), sp)
        } else {
            Statement::new(StatementNode::Expression(expression), position)
        };
        self.new_line()?;
        Ok(statement)
    }

    /// The whole input: statements are parsed and collected while tokens
    /// remain; the first failure aborts the parse with no partial result.
    /// Every position in the returned statements is well-formed.
    #[verifier::loop_isolation(false)]
    pub fn parse(&mut self) -> (r: Result<Vec<Statement>, ParseError>)
        requires
            old(self).inv(),
            old(self).wf_input(),
        ensures
            final(self).toks() == old(self).toks(),
            final(self).filev() == old(self).filev(),
            final(self).inv(),
            match r {
                Ok(ast) => spec_parse(old(self).toks(), old(self).filev(), old(self).at())
                    == Ok::<(Seq<StmtV>, int), ErrV>((stvs(ast@), final(self).at()))
                    && stmts_pos_wf(stvs(ast@)),
                Err(e) => spec_parse(old(self).toks(), old(self).filev(), old(self).at())
                    == Err::<(Seq<StmtV>, int), ErrV>(e@),
            },
    {
        let ghost t0 = self.toks();
        let ghost f0 = self.filev();
        let ghost i0 = self.at();
        let mut ast: Vec<Statement> = Vec::new();

        while self.remaining() > 0
            invariant
                self.toks() == t0,
                self.filev() == f0,
                self.inv(),
                self.wf_input(),
                0 <= self.at(),
                spec_parse(t0, f0, i0) == (match spec_parse(t0, f0, self.at()) {
                    Ok((rest, j)) => Ok::<(Seq<StmtV>, int), ErrV>((stvs(ast@) + rest, j)),
                    Err(e) => Err::<(Seq<StmtV>, int), ErrV>(e),
                }),
            decreases (if self.at() <= t0.len() { t0.len() - self.at() } else { 0int }),
        {
            let ghost at_b = self.at();
            let ghost ast_b = ast@;
            proof {
                lemma_parse_statement_advances(t0, f0, at_b);
            }
            let statement = match self.parse_statement() {
                Ok(s) => s,
                Err(e) => {
                    return Err(e);
                },
            };
            ast.push(statement);
            proof {
                assert(stvs(ast@) =~= stvs(ast_b).push(stmt_view(statement)));
                match spec_parse(t0, f0, self.at()) {
                    Ok((rest, j)) => {
                        assert(stvs(ast_b) + (seq![stmt_view(statement)] + rest) =~= stvs(ast@)
                            + rest);
                    },
                    Err(_) => {},
                }
            }
        }
        proof {
            assert(stvs(ast@) + Seq::<StmtV>::empty() =~= stvs(ast@));
            lemma_parse_pos_wf(t0, f0, i0);
        }
        Ok(ast)
    }
}

/// Law: binary resolution entered on the single remaining operator of the
/// stream, with any left operand already read, yields exactly
/// `left OP b` for the trailing leaf `b`, re-spanned from `left`'s start
/// column into `left`'s line, and consumes the whole stream.
pub proof fn lemma_binary_single_operator(toks: Seq<TokV>, file: Seq<char>, left: ExprV)
    requires
        toks.len() == 3,
        tokens_wf(toks),
        toks[1].token_type == TokenType::Operator,
        is_leaf(toks[2].token_type),
    ensures
        ({
            let b = ExprV { node: leaf_node(toks[2]), pos: pos_of(toks[2]) };
            let op = op_prec_spec(toks[1].lexeme).unwrap().0;
            spec_parse_binary(toks, file, 1, left) == Ok::<(ExprV, int), ErrV>((
                ExprV {
                    node: ENodeV::Binary(Box::new(left), op, Box::new(b)),
                    pos: spec_span(left.pos, pos_of(toks[2])),
                },
                3int,
            ))
        }),
{
    reveal_with_fuel(spec_bin_loop, 3);
    let b = ExprV { node: leaf_node(toks[2]), pos: pos_of(toks[2]) };
    let seeded = seq![left, b];
    let ops = seq![op_prec_spec(toks[1].lexeme).unwrap()];
    assert(fold_top(seeded, ops, pos_of(toks[2])) =~= seq![
        ExprV {
            node: ENodeV::Binary(
                Box::new(left),
                op_prec_spec(toks[1].lexeme).unwrap().0,
                Box::new(b),
            ),
            pos: pos_of(toks[2]),
        },
    ]);
}

/// Law: a well-formed token stream holding exactly one leaf, one operator
/// and one leaf parses as the single binary node `a OP b`, whose position
/// spans from `a`'s start column to `b`'s end column (clipped into `a`'s
/// line), and which consumes the whole stream.
pub proof fn lemma_single_operator(toks: Seq<TokV>, file: Seq<char>)
    requires
        toks.len() == 3,
        tokens_wf(toks),
        is_leaf(toks[0].token_type),
        toks[1].token_type == TokenType::Operator,
        is_leaf(toks[2].token_type),
    ensures
        ({
            let a = ExprV { node: leaf_node(toks[0]), pos: pos_of(toks[0]) };
            let b = ExprV { node: leaf_node(toks[2]), pos: pos_of(toks[2]) };
            let op = op_prec_spec(toks[1].lexeme).unwrap().0;
            spec_parse_expression(toks, file, 0) == Ok::<(ExprV, int), ErrV>((
                ExprV {
                    node: ENodeV::Binary(Box::new(a), op, Box::new(b)),
                    pos: spec_span(pos_of(toks[0]), pos_of(toks[2])),
                },
                3int,
            ))
        }),
{
    let a = ExprV { node: leaf_node(toks[0]), pos: pos_of(toks[0]) };
    lemma_binary_single_operator(toks, file, a);
}

/// Law: in a well-formed stream `a OP1 b OP2 c` of two operators, grouping
/// is decided by precedence alone. A second operator binding no more
/// tightly forces the fold `(a OP1 b) OP2 c`, so runs of equal precedence
/// group left-to-right; one binding strictly tighter defers the fold,
/// nesting as `a OP1 (b OP2 c)`. In particular a multiplicative operator
/// after an additive one nests right, and an additive one after a
/// multiplicative one folds.
pub proof fn lemma_two_operators(toks: Seq<TokV>, file: Seq<char>)
    requires
        toks.len() == 5,
        tokens_wf(toks),
        is_leaf(toks[0].token_type),
        toks[1].token_type == TokenType::Operator,
        is_leaf(toks[2].token_type),
        toks[3].token_type == TokenType::Operator,
        is_leaf(toks[4].token_type),
    ensures
        ({
            let a = ExprV { node: leaf_node(toks[0]), pos: pos_of(toks[0]) };
            let b = ExprV { node: leaf_node(toks[2]), pos: pos_of(toks[2]) };
            let c = ExprV { node: leaf_node(toks[4]), pos: pos_of(toks[4]) };
            let (op1, p1) = op_prec_spec(toks[1].lexeme).unwrap();
            let (op2, p2) = op_prec_spec(toks[3].lexeme).unwrap();
            let inner = if p2 <= p1 {
                ENodeV::Binary(
                    Box::new(ExprV {
                        node: ENodeV::Binary(Box::new(a), op1, Box::new(b)),
                        pos: pos_of(toks[4]),
                    }),
                    op2,
                    Box::new(c),
                )
            } else {
                ENodeV::Binary(
                    Box::new(a),
                    op1,
                    Box::new(ExprV {
                        node: ENodeV::Binary(Box::new(b), op2, Box::new(c)),
                        pos: pos_of(toks[4]),
                    }),
                )
            };
            spec_parse_expression(toks, file, 0) == Ok::<(ExprV, int), ErrV>((
                ExprV { node: inner, pos: spec_span(pos_of(toks[0]), pos_of(toks[4])) },
                5int,
            ))
        }),
{
    reveal_with_fuel(spec_bin_loop, 4);
    let a = ExprV { node: leaf_node(toks[0]), pos: pos_of(toks[0]) };
    let b = ExprV { node: leaf_node(toks[2]), pos: pos_of(toks[2]) };
    let c = ExprV { node: leaf_node(toks[4]), pos: pos_of(toks[4]) };
    let (op1, p1) = op_prec_spec(toks[1].lexeme).unwrap();
    let (op2, p2) = op_prec_spec(toks[3].lexeme).unwrap();
    if p2 <= p1 {
        let x = ExprV {
            node: ENodeV::Binary(Box::new(a), op1, Box::new(b)),
            pos: pos_of(toks[4]),
        };
        assert(fold_top(seq![a, b], seq![(op1, p1)], pos_of(toks[4])) =~= seq![x]);
        let y = ExprV {
            node: ENodeV::Binary(Box::new(x), op2, Box::new(c)),
            pos: pos_of(toks[4]),
        };
        assert(fold_top(seq![x, c], seq![(op2, p2)], pos_of(toks[4])) =~= seq![y]);
    } else {
        let x = ExprV {
            node: ENodeV::Binary(Box::new(b), op2, Box::new(c)),
            pos: pos_of(toks[4]),
        };
        assert(fold_top(seq![a, b, c], seq![(op1, p1), (op2, p2)], pos_of(toks[4])) =~= seq![
            a,
            x,
        ]);
        let y = ExprV {
            node: ENodeV::Binary(Box::new(a), op1, Box::new(x)),
            pos: pos_of(toks[4]),
        };
        assert(fold_top(seq![a, x], seq![(op1, p1)], pos_of(toks[4])) =~= seq![y]);
    }
}

/// Skipping newline lexemes, but only while tokens remain.
pub open spec fn skip_newlines(toks: Seq<TokV>, i: int) -> int
    decreases toks.len() - i,
        when 0 <= i
{
    if toks.len() - i > 0 && cur_tok(toks, i).lexeme == "\n"@ {
        skip_newlines(toks, i + 1)
    } else {
        i
    }
}

} // verus!

