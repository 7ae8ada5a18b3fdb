//! The tokenizer: a single pass over a text buffer that groups alphanumeric
//! runs into words, takes every other visible character as a symbol, skips
//! white space and counts lines.

use vstd::prelude::*;
use crate::chars::{alphanumeric, chars_of, line_feed, white_space};
use crate::token::{classify, Token, TokenKind, TokenType, TokenView};

verus! {

/// A word begins at position `i`: an alphanumeric character that no
/// alphanumeric character precedes.
pub open spec fn word_starts_at(text: Seq<char>, i: int) -> bool {
    alphanumeric(text[i]) && (i == 0 || !alphanumeric(text[i - 1]))
}

/// The character at position `i` is a symbol: neither alphanumeric nor white
/// space.
pub open spec fn symbol_at(text: Seq<char>, i: int) -> bool {
    !alphanumeric(text[i]) && !white_space(text[i])
}

/// A lexical unit begins at position `i`: a maximal alphanumeric run, or a
/// single symbol.
pub open spec fn unit_starts_at(text: Seq<char>, i: int) -> bool {
    0 <= i < text.len() && (word_starts_at(text, i) || symbol_at(text, i))
}

/// The end of the alphanumeric run from position `i` on: the first position
/// at or after `i` that holds no alphanumeric character, or the end of the
/// text.
pub open spec fn word_end(text: Seq<char>, i: int) -> int
    decreases text.len() - i,
{
    if 0 <= i < text.len() && alphanumeric(text[i]) {
        word_end(text, i + 1)
    } else {
        i
    }
}

/// The number of line feeds in `text`.
pub open spec fn line_feeds(text: Seq<char>) -> nat
    decreases text.len(),
{
    if text.len() == 0 {
        0
    } else {
        line_feeds(text.drop_last()) + if line_feed(text.last()) {
            1nat
        } else {
            0nat
        }
    }
}

/// The positions below `n` at which a unit begins, in ascending order.
pub open spec fn unit_starts(text: Seq<char>, n: int) -> Seq<int>
    decreases n,
{
    if n <= 0 {
        Seq::empty()
    } else if unit_starts_at(text, n - 1) {
        unit_starts(text, n - 1).push(n - 1)
    } else {
        unit_starts(text, n - 1)
    }
}

/// The number of lexical units in `text`.
pub open spec fn unit_count(text: Seq<char>) -> nat {
    unit_starts(text, text.len() as int).len()
}

/// The position at which unit number `j` of `text` begins, counted from 0.
pub open spec fn unit_start(text: Seq<char>, j: int) -> int {
    unit_starts(text, text.len() as int)[j]
}

/// The token of the unit that begins at position `p`, in a text whose first
/// line has the number `first_line`. Its line is that of its first
/// character; a word is classified as a whole, a symbol stands for itself.
pub open spec fn unit_at(text: Seq<char>, p: int, first_line: nat) -> TokenView {
    TokenView {
        line_number: first_line + line_feeds(text.take(p)),
        kind: if alphanumeric(text[p]) {
            classify(text.subrange(p, word_end(text, p)))
        } else {
            TokenKind::Symbol(text[p])
        },
    }
}

/// The tokens of the units that begin below position `n`.
pub open spec fn tokens_before(text: Seq<char>, n: int, first_line: nat) -> Seq<TokenView> {
    let starts = unit_starts(text, n);
    Seq::new(starts.len(), |j: int| unit_at(text, starts[j], first_line))
}

/// The tokens of `text`: one for each unit, in the order of the text.
pub open spec fn tokenize(text: Seq<char>, first_line: nat) -> Seq<TokenView> {
    tokens_before(text, text.len() as int, first_line)
}

/// What each of `tokens` stands for.
pub open spec fn token_views(tokens: Seq<Token>) -> Seq<TokenView> {
    Seq::new(tokens.len(), |i: int| tokens[i]@)
}

/// The tokenizer: the tokens read so far, the buffer read last, and the
/// number of line feeds read.
pub struct Lexer {
    tokens: Vec<Token>,
    buffer: String,
    line_nr: usize,
}

/// What a [`Lexer`] stands for.
pub struct LexerView {
    pub tokens: Seq<TokenView>,
    pub buffer: Seq<char>,
    pub line_number: nat,
}

impl LexerView {
    /// The state of a tokenizer that has read nothing.
    pub open spec fn fresh() -> LexerView {
        LexerView { tokens: Seq::empty(), buffer: Seq::empty(), line_number: 0 }
    }

    /// The state after `text` has been read in this state.
    pub open spec fn load(self, text: Seq<char>) -> LexerView {
        LexerView {
            tokens: self.tokens + tokenize(text, self.line_number),
            buffer: text,
            line_number: self.line_number + line_feeds(text),
        }
    }
}

impl View for Lexer {
    type V = LexerView;

    closed spec fn view(&self) -> LexerView {
        LexerView {
            tokens: token_views(self.tokens@),
            buffer: self.buffer@,
            line_number: self.line_nr as nat,
        }
    }
}

impl Lexer {
    /// A tokenizer that has read nothing.
    pub fn new() -> (lexer: Lexer)
        ensures
            lexer@ == LexerView::fresh(),
    {
        let lexer = Lexer { tokens: Vec::new(), buffer: String::new(), line_nr: 0 };
        assert(token_views(lexer.tokens@) =~= Seq::empty());
        lexer
    }

    /// The tokens read so far.
    pub fn tokens(&self) -> (tokens: &Vec<Token>)
        ensures
            token_views(tokens@) == self@.tokens,
    {
        &self.tokens
    }

    /// The buffer read last.
    pub fn buffer(&self) -> (buffer: &String)
        ensures
            buffer@ == self@.buffer,
    {
        &self.buffer
    }

    /// The number of line feeds read so far.
    pub fn line_nr(&self) -> (line: usize)
        ensures
            line == self@.line_number,
    {
        self.line_nr
    }

    /// Reads the alphanumeric run that begins at the cursor and leaves the
    /// cursor behind it.
    fn parse_alphanumeric(&self, chars: &Vec<char>, cursor: &mut usize) -> (word: String)
        requires
            *old(cursor) <= chars.len(),
        ensures
            *final(cursor) == word_end(chars@, *old(cursor) as int),
            *old(cursor) <= *final(cursor) <= chars.len(),
            word@ == chars@.subrange(*old(cursor) as int, *final(cursor) as int),
            forall|k: int|
                *old(cursor) <= k < *final(cursor) ==> alphanumeric(#[trigger] chars@[k])
                    && !line_feed(chars@[k]),
    {
        let start = *cursor;
        let mut end = start;
        let mut ident = String::new();
        while end < chars.len() && chars[end].is_alphanumeric()
            invariant
                start <= end <= chars.len(),
                word_end(chars@, start as int) == word_end(chars@, end as int),
                ident@ == chars@.subrange(start as int, end as int),
                forall|k: int|
                    start <= k < end ==> alphanumeric(#[trigger] chars@[k]) && !line_feed(
                        chars@[k],
                    ),
            decreases chars.len() - end,
        {
            ident.push(chars[end]);
            end += 1;
            assert(ident@ =~= chars@.subrange(start as int, end as int));
        }
        *cursor = end;
        ident
    }

    /// Reads the whole of `buffer`. Each lexical unit adds one token, in the
    /// order of the text, with the line that the unit begins on; the line
    /// count goes on from where it stood.
    pub fn load_file(&mut self, buffer: &String)
        requires
            old(self)@.line_number == 0 || old(self)@.line_number + line_feeds(buffer@)
                <= usize::MAX,
        ensures
            final(self)@ == old(self)@.load(buffer@),
            final(self)@.tokens.len() == old(self)@.tokens.len() + unit_count(buffer@),
            forall|j: int|
                0 <= j < unit_count(buffer@) ==> final(self)@.tokens[old(self)@.tokens.len()
                    + j].line_number == old(self)@.line_number + line_feeds(
                    buffer@.take(#[trigger] unit_start(buffer@, j)),
                ),
    {
        self.buffer = buffer.clone();
        let chars = chars_of(self.buffer.as_str());
        let ghost text = buffer@;
        let ghost first_line = old(self)@.line_number;
        let ghost before = old(self)@.tokens;
        let mut i: usize = 0;
        assert(token_views(self.tokens@) =~= before + tokens_before(text, 0, first_line));
        assert(text.take(0) =~= Seq::empty());
        while i < chars.len()
            invariant
                chars@ == text,
                self.buffer@ == text,
                i <= chars.len(),
                0 < i < text.len() ==> !(alphanumeric(text[i - 1]) && alphanumeric(text[i as int])),
                token_views(self.tokens@) == before + tokens_before(text, i as int, first_line),
                self.line_nr == first_line + line_feeds(text.take(i as int)),
                first_line == 0 || first_line + line_feeds(text) <= usize::MAX,
            decreases chars.len() - i,
        {
            let c = chars[i];
            let ghost seen = token_views(self.tokens@);
            if c.is_alphanumeric() {
                let ghost start = i as int;
                let string = self.parse_alphanumeric(&chars, &mut i);
                proof {
                    lemma_word_end(text, start);
                    lemma_word_is_one_unit(text, start, i as int);
                    lemma_line_feeds_skip(text, start, i as int);
                }
                let token = Token::new(self.line_nr, TokenType::from_string(string.as_str()));
                assert(token@ == unit_at(text, start, first_line));
                self.tokens.push(token);
                assert(token_views(self.tokens@) =~= seen.push(unit_at(text, start, first_line)));
                assert(tokens_before(text, i as int, first_line) =~= tokens_before(
                    text,
                    start,
                    first_line,
                ).push(unit_at(text, start, first_line)));
            } else if !c.is_whitespace() {
                let token = Token::new(self.line_nr, TokenType::Ascii(c));
                assert(token@ == unit_at(text, i as int, first_line));
                self.tokens.push(token);
                proof {
                    lemma_line_feeds_step(text, i as int);
                    assert(token_views(self.tokens@) =~= seen.push(unit_at(text, i as int, first_line)));
                    assert(tokens_before(text, i + 1, first_line) =~= tokens_before(
                        text,
                        i as int,
                        first_line,
                    ).push(unit_at(text, i as int, first_line)));
                }
                i += 1;
            } else {
                proof {
                    lemma_line_feeds_step(text, i as int);
                    lemma_line_feeds_bounds(text, i + 1);
                    assert(tokens_before(text, i + 1, first_line) =~= tokens_before(
                        text,
                        i as int,
                        first_line,
                    ));
                }
                if c == '\n' {
                    self.line_nr += 1;
                }
                i += 1;
            }
        }
        assert(text.take(text.len() as int) =~= text);
    }
}

/// The positions that `unit_starts` lists are those at which a unit begins:
/// each of them, none else, in ascending order.
pub proof fn lemma_unit_starts(text: Seq<char>, n: int)
    requires
        n <= text.len(),
    ensures
        forall|j: int|
            0 <= j < unit_starts(text, n).len() ==> 0 <= #[trigger] unit_starts(text, n)[j] < n
                && unit_starts_at(text, unit_starts(text, n)[j]),
        forall|j: int, k: int|
            0 <= j < k < unit_starts(text, n).len() ==> unit_starts(text, n)[j] < unit_starts(
                text,
                n,
            )[k],
        forall|p: int|
            0 <= p < n && unit_starts_at(text, p) ==> unit_starts(text, n).contains(p),
    decreases n,
{
    if n > 0 {
        lemma_unit_starts(text, n - 1);
        let before = unit_starts(text, n - 1);
        let all = unit_starts(text, n);
        assert forall|p: int| 0 <= p < n && unit_starts_at(text, p) implies all.contains(p) by {
            if p < n - 1 {
                let j = choose|j: int| 0 <= j < before.len() && before[j] == p;
                assert(all[j] == p);
            } else {
                assert(all[all.len() - 1] == p);
            }
        }
    }
}

/// There are as many tokens as units: as many as there are positions in the
/// text at which a unit begins.
pub proof fn lemma_token_count(text: Seq<char>, first_line: nat)
    ensures
        tokenize(text, first_line).len() == unit_count(text),
        unit_count(text) == Set::new(|p: int| unit_starts_at(text, p)).len(),
        unit_count(text) <= text.len(),
{
    let n = text.len() as int;
    let starts = unit_starts(text, n);
    lemma_unit_starts(text, n);
    assert(starts.no_duplicates());
    starts.unique_seq_to_set();
    assert(starts.to_set() =~= Set::new(|p: int| unit_starts_at(text, p))) by {
        assert forall|p: int| starts.to_set().contains(p) <==> unit_starts_at(text, p) by {
            if starts.contains(p) {
                let j = choose|j: int| 0 <= j < starts.len() && starts[j] == p;
                assert(unit_starts_at(text, starts[j]));
            }
        }
    }
    lemma_unit_starts_len(text, n);
}

proof fn lemma_unit_starts_len(text: Seq<char>, n: int)
    requires
        0 <= n,
    ensures
        unit_starts(text, n).len() <= n,
    decreases n,
{
    if n > 0 {
        lemma_unit_starts_len(text, n - 1);
    }
}

/// The line of a token is the line that its unit begins on: the first line
/// of the text plus the line feeds before the unit. The kind of the token is
/// that of its unit.
pub proof fn lemma_token_lines(text: Seq<char>, first_line: nat, j: int)
    requires
        0 <= j < unit_count(text),
    ensures
        tokenize(text, first_line)[j] == unit_at(text, unit_start(text, j), first_line),
        tokenize(text, first_line)[j].line_number == first_line + line_feeds(
            text.take(unit_start(text, j)),
        ),
        unit_starts_at(text, unit_start(text, j)),
{
    lemma_unit_starts(text, text.len() as int);
}

/// Reading is repeatable: tokenizers in the same state that read the same
/// text end in the same state, with the same tokens. Two new tokenizers that
/// read one buffer hold identical token sequences, the tokens of that buffer
/// from line 0 on.
pub proof fn lemma_load_repeatable(first: LexerView, second: LexerView, text: Seq<char>)
    requires
        first == second,
    ensures
        first.load(text) == second.load(text),
        first.load(text).tokens == second.load(text).tokens,
        LexerView::fresh().load(text).tokens == tokenize(text, 0),
{
    assert(LexerView::fresh().load(text).tokens =~= tokenize(text, 0));
}

/// Reading adds to the tokens and never changes those that were read before.
pub proof fn lemma_load_keeps_tokens(state: LexerView, text: Seq<char>)
    ensures
        state.tokens.is_prefix_of(state.load(text).tokens),
        state.load(text).tokens.len() == state.tokens.len() + unit_count(text),
{
}

/// Taking one more character adds one line feed if that character is one.
pub proof fn lemma_line_feeds_step(text: Seq<char>, i: int)
    requires
        0 <= i < text.len(),
    ensures
        line_feeds(text.take(i + 1)) == line_feeds(text.take(i)) + if line_feed(text[i]) {
            1nat
        } else {
            0nat
        },
{
    assert(text.take(i + 1).drop_last() =~= text.take(i));
}

/// A prefix holds no more line feeds than characters, and no more than the
/// whole text.
pub proof fn lemma_line_feeds_bounds(text: Seq<char>, i: int)
    requires
        0 <= i <= text.len(),
    ensures
        line_feeds(text.take(i)) <= i,
        line_feeds(text.take(i)) <= line_feeds(text),
    decreases text.len() - i,
{
    lemma_line_feeds_count(text.take(i));
    if i == text.len() {
        assert(text.take(i) =~= text);
    } else {
        lemma_line_feeds_bounds(text, i + 1);
        lemma_line_feeds_step(text, i);
    }
}

proof fn lemma_line_feeds_count(text: Seq<char>)
    ensures
        line_feeds(text) <= text.len(),
    decreases text.len(),
{
    if text.len() > 0 {
        lemma_line_feeds_count(text.drop_last());
    }
}

/// Characters that are no line feeds do not change the count.
proof fn lemma_line_feeds_skip(text: Seq<char>, from: int, to: int)
    requires
        0 <= from <= to <= text.len(),
        forall|k: int| from <= k < to ==> !line_feed(#[trigger] text[k]),
    ensures
        line_feeds(text.take(to)) == line_feeds(text.take(from)),
    decreases to - from,
{
    if from < to {
        lemma_line_feeds_skip(text, from, to - 1);
        lemma_line_feeds_step(text, to - 1);
    }
}

/// The run that `word_end` measures holds alphanumeric characters only, and
/// none follows it.
pub proof fn lemma_word_end(text: Seq<char>, i: int)
    requires
        0 <= i <= text.len(),
    ensures
        i <= word_end(text, i) <= text.len(),
        forall|k: int| i <= k < word_end(text, i) ==> alphanumeric(#[trigger] text[k]),
        word_end(text, i) < text.len() ==> !alphanumeric(text[word_end(text, i)]),
    decreases text.len() - i,
{
    if i < text.len() && alphanumeric(text[i]) {
        lemma_word_end(text, i + 1);
    }
}

/// Inside a word no further unit begins.
proof fn lemma_word_is_one_unit(text: Seq<char>, start: int, end: int)
    requires
        0 <= start < end <= text.len(),
        forall|k: int| start <= k < end ==> alphanumeric(#[trigger] text[k]),
        start == 0 || !alphanumeric(text[start - 1]),
    ensures
        unit_starts(text, end) == unit_starts(text, start).push(start),
    decreases end - start,
{
    if end == start + 1 {
        assert(unit_starts_at(text, start));
    } else {
        lemma_word_is_one_unit(text, start, end - 1);
        assert(alphanumeric(text[end - 1]) && alphanumeric(text[end - 2]));
        assert(!unit_starts_at(text, end - 1));
    }
}

} // verus!
