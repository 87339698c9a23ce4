//! The pattern tokenizer: turns a path-like string into structural tokens,
//! one at a time, from a cursor that only moves forward.

use vstd::prelude::*;
use crate::text::{chars_of, string_of};

verus! {

/// One structural unit of a path-like string.
#[derive(PartialEq, Debug)]
pub enum Token {
    /// A literal segment: a maximal run of non-structural characters.
    Path(String),
    /// A named parameter: `:` and the literal run that follows it, which is
    /// its name. A `:` with no literal character after it is a parameter
    /// whose name is empty.
    Param(String),
    Slash,
    QuestionMark,
    Ampersand,
    EqualSign,
    /// The end of the input; once reached, every later token is `End`.
    End,
}

/// The mathematical value of a [`Token`].
pub enum TokenView {
    Path(Seq<char>),
    Param(Seq<char>),
    Slash,
    QuestionMark,
    Ampersand,
    EqualSign,
    End,
}

impl View for Token {
    type V = TokenView;

    open spec fn view(&self) -> TokenView {
        match self {
            Token::Path(s) => TokenView::Path(s@),
            Token::Param(s) => TokenView::Param(s@),
            Token::Slash => TokenView::Slash,
            Token::QuestionMark => TokenView::QuestionMark,
            Token::Ampersand => TokenView::Ampersand,
            Token::EqualSign => TokenView::EqualSign,
            Token::End => TokenView::End,
        }
    }
}

/// Whether `c` may stand inside a literal run: any character but the
/// structural ones (`:`, `/`, `?`, `=`, `&`) and the terminator `\0`.
pub open spec fn is_path_char(c: char) -> bool {
    c != ':' && c != '/' && c != '\0' && c != '?' && c != '=' && c != '&'
}

/// The input a tokenizer works on: the empty string stands for the root
/// path `/`, every other string for itself.
pub open spec fn normalize(input: Seq<char>) -> Seq<char> {
    if input.len() == 0 {
        seq!['/']
    } else {
        input
    }
}

/// The character under a cursor at `pos`; past the end it is the
/// terminator `\0`.
pub open spec fn char_at(s: Seq<char>, pos: int) -> char {
    if 0 <= pos < s.len() {
        s[pos]
    } else {
        '\0'
    }
}

/// Where the literal run that starts at `from` ends: the first position at
/// or after `from` that holds no literal character, or the end of `s`.
pub open spec fn run_end(s: Seq<char>, from: int) -> int
    decreases s.len() - from,
{
    if 0 <= from < s.len() && is_path_char(s[from]) {
        run_end(s, from + 1)
    } else {
        from
    }
}

/// The token that a cursor at `pos` yields.
pub open spec fn token_at(s: Seq<char>, pos: int) -> TokenView {
    let c = char_at(s, pos);
    if c == ':' {
        TokenView::Param(s.subrange(pos + 1, run_end(s, pos + 1)))
    } else if c == '/' {
        TokenView::Slash
    } else if c == '\0' {
        TokenView::End
    } else if c == '?' {
        TokenView::QuestionMark
    } else if c == '&' {
        TokenView::Ampersand
    } else if c == '=' {
        TokenView::EqualSign
    } else {
        TokenView::Path(s.subrange(pos, run_end(s, pos)))
    }
}

/// Where the cursor stands after it has yielded the token at `pos`. At the
/// terminator it stays where it is.
pub open spec fn next_pos(s: Seq<char>, pos: int) -> int {
    let c = char_at(s, pos);
    if c == ':' {
        run_end(s, pos + 1)
    } else if c == '\0' {
        pos
    } else if c == '/' || c == '?' || c == '&' || c == '=' {
        pos + 1
    } else {
        run_end(s, pos)
    }
}

/// A literal run lies within the input, holds literal characters only, and
/// stops at the end or at the first character that is not one.
pub proof fn lemma_run_end(s: Seq<char>, from: int)
    requires
        0 <= from <= s.len(),
    ensures
        from <= run_end(s, from) <= s.len(),
        forall|i: int| from <= i < run_end(s, from) ==> is_path_char(#[trigger] s[i]),
        run_end(s, from) == s.len() || !is_path_char(s[run_end(s, from)]),
    decreases s.len() - from,
{
    if from < s.len() && is_path_char(s[from]) {
        lemma_run_end(s, from + 1);
    }
}

/// The cursor never leaves the input and never moves back; it moves forward
/// with every token but `End`, and at `End` it stays.
pub proof fn lemma_next_pos(s: Seq<char>, pos: int)
    requires
        0 <= pos <= s.len(),
    ensures
        pos <= next_pos(s, pos) <= s.len(),
        token_at(s, pos) is End <==> next_pos(s, pos) == pos,
{
    if pos < s.len() {
        lemma_run_end(s, pos + 1);
        lemma_run_end(s, pos);
    }
}

/// The tokens from `pos` on, up to and including the first `End`.
pub open spec fn tokens_from(s: Seq<char>, pos: int) -> Seq<TokenView>
    decreases s.len() - pos,
    when 0 <= pos <= s.len()
    via tokens_from_decreases
{
    if token_at(s, pos) is End {
        seq![TokenView::End]
    } else {
        seq![token_at(s, pos)] + tokens_from(s, next_pos(s, pos))
    }
}

#[via_fn]
proof fn tokens_from_decreases(s: Seq<char>, pos: int) {
    lemma_next_pos(s, pos);
}

/// All tokens of `s`, up to and including `End`.
pub open spec fn tokens(s: Seq<char>) -> Seq<TokenView> {
    tokens_from(s, 0)
}

/// Where the cursor stands after `n` tokens have been taken from `pos`.
pub open spec fn pos_after(s: Seq<char>, pos: int, n: nat) -> int
    decreases n,
{
    if n == 0 {
        pos
    } else {
        next_pos(s, pos_after(s, pos, (n - 1) as nat))
    }
}

/// The token that the `n`-th call after a cursor stood at `pos` returns,
/// counting from zero.
pub open spec fn nth_token(s: Seq<char>, pos: int, n: nat) -> TokenView {
    token_at(s, pos_after(s, pos, n))
}

/// However many tokens are taken, the cursor stays within the input.
pub proof fn lemma_cursor_stays_in_bounds(s: Seq<char>, pos: int, n: nat)
    requires
        0 <= pos <= s.len(),
    ensures
        pos <= pos_after(s, pos, n) <= s.len(),
    decreases n,
{
    if n > 0 {
        lemma_cursor_stays_in_bounds(s, pos, (n - 1) as nat);
        lemma_next_pos(s, pos_after(s, pos, (n - 1) as nat));
    }
}

/// `End` is terminal: once a call has returned `End`, every later call
/// returns `End` too and leaves the cursor where it was.
pub proof fn lemma_end_is_terminal(s: Seq<char>, pos: int, n: nat, m: nat)
    requires
        0 <= pos <= s.len(),
        n <= m,
        nth_token(s, pos, n) is End,
    ensures
        nth_token(s, pos, m) is End,
        pos_after(s, pos, m) == pos_after(s, pos, n),
    decreases m,
{
    if n < m {
        lemma_end_is_terminal(s, pos, n, (m - 1) as nat);
        lemma_cursor_stays_in_bounds(s, pos, (m - 1) as nat);
        lemma_next_pos(s, pos_after(s, pos, (m - 1) as nat));
    }
}

/// A token sequence is never empty, ends with `End`, and holds no other
/// `End`; its `i`-th entry is what the `i`-th call returns.
pub proof fn lemma_tokens_from(s: Seq<char>, pos: int)
    requires
        0 <= pos <= s.len(),
    ensures
        tokens_from(s, pos).len() >= 1,
        tokens_from(s, pos).last() is End,
        forall|i: int|
            0 <= i < tokens_from(s, pos).len() - 1 ==> !(#[trigger] tokens_from(s, pos)[i] is End),
        forall|i: nat|
            i < tokens_from(s, pos).len() ==> tokens_from(s, pos)[i as int] == #[trigger] nth_token(
                s,
                pos,
                i,
            ),
    decreases s.len() - pos,
{
    if !(token_at(s, pos) is End) {
        lemma_next_pos(s, pos);
        let next = next_pos(s, pos);
        lemma_tokens_from(s, next);
        let rest = tokens_from(s, next);
        assert forall|i: nat| i < tokens_from(s, pos).len() implies tokens_from(s, pos)[i as int]
            == #[trigger] nth_token(s, pos, i) by {
            if i > 0 {
                lemma_pos_after_shift(s, pos, (i - 1) as nat);
                assert(rest[i - 1] == nth_token(s, next, (i - 1) as nat));
            }
        }
    }
}

/// Taking one token and then `n` more is taking `n + 1`.
proof fn lemma_pos_after_shift(s: Seq<char>, pos: int, n: nat)
    ensures
        pos_after(s, next_pos(s, pos), n) == pos_after(s, pos, n + 1),
    decreases n,
{
    if n > 0 {
        lemma_pos_after_shift(s, pos, (n - 1) as nat);
    } else {
        assert(pos_after(s, pos, 0) == pos);
    }
}

/// The state of a tokenizer as contracts see it.
pub struct Cursor {
    /// The characters that are tokenized.
    pub input: Seq<char>,
    /// How many of them have been consumed.
    pub pos: int,
}

/// A tokenizer over one path-like string.
#[derive(Clone)]
pub struct Lexer {
    chars: Vec<char>,
    cur: char,
    pos: usize,
}

impl View for Lexer {
    type V = Cursor;

    closed spec fn view(&self) -> Cursor {
        Cursor { input: self.chars@, pos: self.pos as int }
    }
}

impl Lexer {
    /// The cursor lies within the input and the cached character is the one
    /// under it.
    pub closed spec fn wf(&self) -> bool {
        &&& self.pos <= self.chars.len()
        &&& self.cur == char_at(self.chars@, self.pos as int)
    }

    /// A tokenizer at the start of `input`, the empty string read as `/`.
    pub fn new(input: &str) -> (lexer: Self)
        ensures
            lexer.wf(),
            lexer@ == (Cursor { input: normalize(input@), pos: 0 }),
    {
        let mut chars = chars_of(input);
        if chars.len() == 0 {
            chars.push('/');
        }
        assert(chars@ =~= normalize(input@));
        let cur = chars[0];
        Self { chars, cur, pos: 0 }
    }

    /// Consumes and returns one token. After `End` the cursor stays, so
    /// every later call returns `End` again.
    pub fn next_token(&mut self) -> (token: Token)
        requires
            old(self).wf(),
        ensures
            final(self).wf(),
            final(self)@.input == old(self)@.input,
            final(self)@.pos == next_pos(old(self)@.input, old(self)@.pos),
            0 <= old(self)@.pos <= final(self)@.pos <= old(self)@.input.len(),
            token@ == token_at(old(self)@.input, old(self)@.pos),
            token@ is End ==> final(self)@ == old(self)@,
    {
        proof {
            lemma_next_pos(self.chars@, self.pos as int);
        }
        match self.cur {
            ':' => self.parse_param(),
            '/' => {
                self.read_char();
                Token::Slash
            },
            '\0' => Token::End,
            '?' => {
                self.read_char();
                Token::QuestionMark
            },
            '&' => {
                self.read_char();
                Token::Ampersand
            },
            '=' => {
                self.read_char();
                Token::EqualSign
            },
            _ => self.parse_path(),
        }
    }

    /// Moves the cursor one character forward, but never past the end.
    fn read_char(&mut self)
        requires
            old(self).wf(),
        ensures
            final(self).wf(),
            final(self).chars == old(self).chars,
            final(self).pos == if old(self).pos < old(self).chars.len() {
                old(self).pos + 1
            } else {
                old(self).pos as int
            },
    {
        if self.pos < self.chars.len() {
            self.pos = self.pos + 1;
        }
        if self.pos >= self.chars.len() {
            self.cur = '\0';
        } else {
            self.cur = self.chars[self.pos];
        }
    }

    /// Moves the cursor to the end of the literal run it stands in.
    fn skip_run(&mut self)
        requires
            old(self).wf(),
        ensures
            final(self).wf(),
            final(self).chars == old(self).chars,
            final(self).pos == run_end(old(self).chars@, old(self).pos as int),
            old(self).pos <= final(self).pos,
    {
        while self.pos < self.chars.len() && valid_path_char(self.cur)
            invariant
                self.wf(),
                self.chars == old(self).chars,
                old(self).pos <= self.pos,
                run_end(self.chars@, self.pos as int) == run_end(
                    old(self).chars@,
                    old(self).pos as int,
                ),
            decreases self.chars.len() - self.pos,
        {
            self.read_char();
        }
    }

    /// Reads the literal run under the cursor.
    fn parse_path(&mut self) -> (token: Token)
        requires
            old(self).wf(),
        ensures
            final(self).wf(),
            final(self).chars == old(self).chars,
            final(self).pos == run_end(old(self).chars@, old(self).pos as int),
            token@ == TokenView::Path(
                old(self).chars@.subrange(old(self).pos as int, final(self).pos as int),
            ),
    {
        let position: usize = self.pos;
        self.skip_run();
        Token::Path(string_of(&self.chars, position, self.pos))
    }

    /// Reads `:` and the literal run after it, which names the parameter.
    fn parse_param(&mut self) -> (token: Token)
        requires
            old(self).wf(),
            old(self).pos < old(self).chars.len(),
        ensures
            final(self).wf(),
            final(self).chars == old(self).chars,
            final(self).pos == run_end(old(self).chars@, old(self).pos + 1),
            token@ == TokenView::Param(
                old(self).chars@.subrange(old(self).pos + 1, final(self).pos as int),
            ),
    {
        self.read_char();
        let position: usize = self.pos;
        self.skip_run();
        Token::Param(string_of(&self.chars, position, self.pos))
    }
}

/// Whether `ch` may stand inside a literal run.
pub fn valid_path_char(ch: char) -> (ok: bool)
    ensures
        ok == is_path_char(ch),
{
    !(ch == ':' || ch == '/' || ch == '\0' || ch == '?' || ch == '=' || ch == '&')
}

} // verus!
