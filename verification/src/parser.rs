//! The driver: it walks the tokens of a tokenizer, turns each numeric literal
//! into a syntax node and that node into a native value, and says what the
//! backend is to dump.

use vstd::prelude::*;
use crate::ast::{translation, AstNode, AstNodeView, NativeValue, NativeValueView};
use crate::lexer::{token_views, Lexer};
use crate::token::{Token, TokenKind, TokenType, TokenView};

verus! {

/// One request to the dump facility of the backend.
#[derive(Debug, PartialEq)]
pub enum Dump {
    /// Dump this one value.
    Value(NativeValue),
    /// Dump the whole module.
    Module,
}

/// What a [`Dump`] stands for.
pub enum DumpView {
    Value(NativeValueView),
    Module,
}

impl View for Dump {
    type V = DumpView;

    open spec fn view(&self) -> DumpView {
        match self {
            Dump::Value(value) => DumpView::Value(value@),
            Dump::Module => DumpView::Module,
        }
    }
}

/// What each of `dumps` stands for.
pub open spec fn dump_views(dumps: Seq<Dump>) -> Seq<DumpView> {
    Seq::new(dumps.len(), |i: int| dumps[i]@)
}

/// Why a pass makes nothing of a token.
#[derive(Debug, Clone, Copy, PartialEq, Eq, Structural)]
pub enum Reason {
    /// The token is an error token: its lexeme has no known shape.
    Malformed,
    /// The token is well formed, but no rule of the grammar takes it up.
    Unrecognized,
}

/// The notice that a pass made nothing of a token.
#[derive(Debug, Clone, Copy, PartialEq, Eq, Structural)]
pub struct Warning {
    /// The line of the token.
    pub line_nr: usize,
    pub reason: Reason,
}

/// What a [`Warning`] stands for.
pub struct WarningView {
    pub line_number: nat,
    pub reason: Reason,
}

impl View for Warning {
    type V = WarningView;

    open spec fn view(&self) -> WarningView {
        WarningView { line_number: self.line_nr as nat, reason: self.reason }
    }
}

/// What each of `warnings` stands for.
pub open spec fn warning_views(warnings: Seq<Warning>) -> Seq<WarningView> {
    Seq::new(warnings.len(), |i: int| warnings[i]@)
}

/// The node that a token is recognized as: a number token is a numeric
/// literal, and no other token is anything.
pub open spec fn recognized(token: TokenView) -> Option<AstNodeView> {
    match token.kind {
        TokenKind::Number(numeral) => Some(AstNodeView::Number(numeral)),
        _ => None,
    }
}

/// The dumps of the values in `tokens`: one for each token that is
/// recognized, in the order of the tokens.
pub open spec fn value_dumps(tokens: Seq<TokenView>) -> Seq<DumpView>
    decreases tokens.len(),
{
    if tokens.len() == 0 {
        Seq::empty()
    } else {
        let before = value_dumps(tokens.drop_last());
        match recognized(tokens.last()) {
            Some(node) => before.push(DumpView::Value(translation(node))),
            None => before,
        }
    }
}

/// The warning that a token gives rise to: none if it is recognized, and
/// else one with the line of the token, which tells an error token from a
/// token that is merely not taken up.
pub open spec fn warned(token: TokenView) -> Option<WarningView> {
    match token.kind {
        TokenKind::Number(_) => None,
        TokenKind::Error => Some(
            WarningView { line_number: token.line_number, reason: Reason::Malformed },
        ),
        _ => Some(WarningView { line_number: token.line_number, reason: Reason::Unrecognized }),
    }
}

/// The warnings of `tokens`: one for each token that is not recognized, in
/// the order of the tokens.
pub open spec fn warnings_of(tokens: Seq<TokenView>) -> Seq<WarningView>
    decreases tokens.len(),
{
    if tokens.len() == 0 {
        Seq::empty()
    } else {
        let before = warnings_of(tokens.drop_last());
        match warned(tokens.last()) {
            Some(warning) => before.push(warning),
            None => before,
        }
    }
}

/// All that a pass over `tokens` asks of the backend: the dumps of the
/// values, and when the tokens are exhausted one dump of the module.
pub open spec fn dump_plan(tokens: Seq<TokenView>) -> Seq<DumpView> {
    value_dumps(tokens).push(DumpView::Module)
}

/// The driver of one session. It names the translation unit that the backend
/// builds for the session.
pub struct Parser {
    unit_name: String,
}

impl View for Parser {
    type V = Seq<char>;

    closed spec fn view(&self) -> Seq<char> {
        self.unit_name@
    }
}

impl Parser {
    /// The driver of a new session, whose translation unit is named `RK`.
    pub fn new() -> (parser: Parser)
        ensures
            parser@ == "RK"@,
    {
        Parser { unit_name: "RK".to_owned() }
    }

    /// The name of the translation unit.
    pub fn unit_name(&self) -> (name: &str)
        ensures
            name@ == self@,
    {
        self.unit_name.as_str()
    }

    /// Recognizes one token: the node it makes, if it makes one.
    pub fn recognize(token: &Token) -> (node: Option<AstNode>)
        ensures
            match node {
                Some(node) => recognized(token@) == Some(node@),
                None => recognized(token@) is None,
            },
    {
        match token.token_type() {
            TokenType::Number(numeral) => Some(AstNode::Number(numeral.clone())),
            _ => None,
        }
    }

    /// The warning for a token that a pass makes nothing of; `None` for a
    /// token that is recognized.
    pub fn warn(token: &Token) -> (warning: Option<Warning>)
        ensures
            match warning {
                Some(warning) => warned(token@) == Some(warning@),
                None => warned(token@) is None,
            },
    {
        match token.token_type() {
            TokenType::Number(_) => None,
            TokenType::Error => Some(
                Warning { line_nr: token.line_nr(), reason: Reason::Malformed },
            ),
            _ => Some(Warning { line_nr: token.line_nr(), reason: Reason::Unrecognized }),
        }
    }

    /// The warnings of a pass over the tokens of `lexer`: one for each token
    /// that the pass makes nothing of, in the order of the tokens.
    pub fn warnings(&self, lexer: &Lexer) -> (warnings: Vec<Warning>)
        ensures
            warning_views(warnings@) == warnings_of(lexer@.tokens),
    {
        let tokens = lexer.tokens();
        let mut warnings: Vec<Warning> = Vec::new();
        let mut i: usize = 0;
        assert(lexer@.tokens.take(0) =~= Seq::empty());
        assert(warning_views(warnings@) =~= warnings_of(lexer@.tokens.take(0)));
        while i < tokens.len()
            invariant
                i <= tokens.len(),
                token_views(tokens@) == lexer@.tokens,
                warning_views(warnings@) == warnings_of(lexer@.tokens.take(i as int)),
            decreases tokens.len() - i,
        {
            let ghost seen = warning_views(warnings@);
            proof {
                assert(lexer@.tokens.take(i + 1).drop_last() =~= lexer@.tokens.take(i as int));
                assert(lexer@.tokens.take(i + 1).last() == tokens@[i as int]@);
            }
            match Self::warn(&tokens[i]) {
                Some(warning) => {
                    warnings.push(warning);
                    assert(warning_views(warnings@) =~= seen.push(warning@));
                },
                None => {},
            }
            i += 1;
        }
        assert(lexer@.tokens.take(i as int) =~= lexer@.tokens);
        warnings
    }

    /// Walks all tokens of `lexer` once, from the first to the last, and
    /// returns what the backend is to dump, in order: the value of each
    /// numeric literal, and at the end the module. Tokens of every other
    /// kind are passed over.
    pub fn parse(&mut self, lexer: &Lexer) -> (dumps: Vec<Dump>)
        ensures
            dump_views(dumps@) == dump_plan(lexer@.tokens),
            final(self)@ == old(self)@,
    {
        let tokens = lexer.tokens();
        let mut dumps: Vec<Dump> = Vec::new();
        let mut i: usize = 0;
        assert(lexer@.tokens.take(0) =~= Seq::empty());
        assert(dump_views(dumps@) =~= value_dumps(lexer@.tokens.take(0)));
        while i < tokens.len()
            invariant
                i <= tokens.len(),
                token_views(tokens@) == lexer@.tokens,
                dump_views(dumps@) == value_dumps(lexer@.tokens.take(i as int)),
            decreases tokens.len() - i,
        {
            let ghost seen = dump_views(dumps@);
            proof {
                assert(lexer@.tokens.take(i + 1).drop_last() =~= lexer@.tokens.take(i as int));
                assert(lexer@.tokens.take(i + 1).last() == tokens@[i as int]@);
            }
            match Self::recognize(&tokens[i]) {
                Some(node) => {
                    dumps.push(Dump::Value(node.codegen()));
                    assert(dump_views(dumps@) =~= seen.push(
                        DumpView::Value(translation(node@)),
                    ));
                },
                None => {},
            }
            i += 1;
        }
        assert(lexer@.tokens.take(i as int) =~= lexer@.tokens);
        let ghost values = dump_views(dumps@);
        dumps.push(Dump::Module);
        assert(dump_views(dumps@) =~= values.push(DumpView::Module));
        dumps
    }
}

/// The shape of what a pass asks for: the module is dumped once, at the end,
/// and everything before it is the dump of a value. No more values are
/// dumped than there are tokens, and none where no token is a number.
pub proof fn lemma_dump_plan_shape(tokens: Seq<TokenView>)
    ensures
        dump_plan(tokens).len() == value_dumps(tokens).len() + 1,
        dump_plan(tokens).last() == DumpView::Module,
        forall|i: int| 0 <= i < value_dumps(tokens).len() ==> #[trigger] dump_plan(tokens)[i] is Value,
        value_dumps(tokens).len() <= tokens.len(),
        (forall|i: int| 0 <= i < tokens.len() ==> !(#[trigger] tokens[i].kind is Number))
            ==> dump_plan(tokens) == seq![DumpView::Module],
{
    lemma_value_dumps(tokens);
    if forall|i: int| 0 <= i < tokens.len() ==> !(#[trigger] tokens[i].kind is Number) {
        assert(dump_plan(tokens) =~= seq![DumpView::Module]);
    }
}

proof fn lemma_value_dumps(tokens: Seq<TokenView>)
    ensures
        forall|i: int| 0 <= i < value_dumps(tokens).len() ==> #[trigger] value_dumps(tokens)[i] is Value,
        value_dumps(tokens).len() <= tokens.len(),
        (forall|i: int| 0 <= i < tokens.len() ==> !(#[trigger] tokens[i].kind is Number))
            ==> value_dumps(tokens).len() == 0,
    decreases tokens.len(),
{
    if tokens.len() > 0 {
        lemma_value_dumps(tokens.drop_last());
        if forall|i: int| 0 <= i < tokens.len() ==> !(#[trigger] tokens[i].kind is Number) {
            assert(!(tokens[tokens.len() - 1].kind is Number));
            assert forall|i: int| 0 <= i < tokens.drop_last().len() implies !(
            #[trigger] tokens.drop_last()[i].kind is Number) by {
                assert(tokens.drop_last()[i] == tokens[i]);
            }
        }
    }
}

/// A pass accounts for every token: it dumps a value for it or warns of it,
/// never both.
pub proof fn lemma_every_token_accounted_for(tokens: Seq<TokenView>)
    ensures
        value_dumps(tokens).len() + warnings_of(tokens).len() == tokens.len(),
        forall|i: int|
            0 <= i < tokens.len() ==> (recognized(#[trigger] tokens[i]) is Some <==> warned(
                tokens[i],
            ) is None),
    decreases tokens.len(),
{
    if tokens.len() > 0 {
        lemma_every_token_accounted_for(tokens.drop_last());
    }
}

/// A value is dumped for a token exactly if the token is a number, and then
/// it is the constant of that numeral: appending a token appends its dump.
pub proof fn lemma_value_dumps_push(tokens: Seq<TokenView>, token: TokenView)
    ensures
        value_dumps(tokens.push(token)) == match token.kind {
            TokenKind::Number(numeral) => value_dumps(tokens).push(
                DumpView::Value(NativeValueView::Real(numeral)),
            ),
            _ => value_dumps(tokens),
        },
{
    assert(tokens.push(token).drop_last() =~= tokens);
}

} // verus!
