//! Splitting source text into tokens.
use vstd::prelude::*;
use crate::data_types::{Complex, DataType, Lit, LiteralNumber, Rational, Repr};

verus! {

/// Tokens of the language.
#[derive(Debug, PartialEq)]
pub enum Token {
    /// `(`
    OpenParen,
    /// `)`
    CloseParen,
    /// `[`
    OpenBracket,
    /// `]`
    CloseBracket,
    /// `{`
    OpenBraces,
    /// `}`
    CloseBraces,
    /// `'`
    SingleQuote,
    /// A literal.
    Primitive(DataType),
    /// Any other word: a name.
    Ident(String),
    /// `.`
    Dot,
    /// A space.
    Whitespace,
    /// `;`, which starts a comment.
    Comment,
}

/// A token and the line it starts on.
#[derive(Debug)]
pub struct LocatedToken {
    pub line: usize,
    pub token: Token,
}

/// Errors of tokenizing.
#[derive(Debug, Clone, Copy, PartialEq, Eq)]
pub enum LexerError {
    /// A string literal with no closing quote, opened on `line`.
    UnterminatedString { line: usize },
}

/// Characters that end a word and stand as tokens of their own.
pub open spec fn is_single(c: char) -> bool {
    c == '(' || c == ')' || c == '[' || c == ']' || c == '{' || c == '}' || c == '\''
}

pub open spec fn is_space(c: char) -> bool {
    c == ' ' || c == '\n' || c == '\r' || c == '\t'
}

pub open spec fn is_digit(c: char) -> bool {
    '0' <= c <= '9'
}

/// The value of a sequence of decimal digits.
pub open spec fn digits_value(s: Seq<char>) -> int
    decreases s.len(),
{
    if s.len() == 0 {
        0
    } else {
        digits_value(s.drop_last()) * 10 + (s.last() as int - '0' as int)
    }
}

/// The length of a leading sign.
pub open spec fn sign_len(s: Seq<char>) -> int {
    if s.len() > 0 && (s[0] == '-' || s[0] == '+') { 1 } else { 0 }
}

pub open spec fn all_digits(ds: Seq<char>) -> bool {
    forall|i: int| 0 <= i < ds.len() ==> is_digit(#[trigger] ds[i])
}

/// The integer written as an optional sign and one or more digits.
pub open spec fn decimal_of(s: Seq<char>) -> Option<int> {
    let ds = s.skip(sign_len(s));
    if ds.len() > 0 && all_digits(ds) {
        Some(if s[0] == '-' { -digits_value(ds) } else { digits_value(ds) })
    } else {
        None
    }
}

/// Relies on std's `String::push`: appends one character.
#[verifier::external_body]
fn push_char(s: &mut String, c: char)
    ensures
        final(s)@ == old(s)@.push(c),
{
    s.push(c)
}

/// The text of `chars[from..to]`.
pub fn text_of(chars: &Vec<char>, from: usize, to: usize) -> (r: String)
    requires
        from <= to <= chars@.len(),
    ensures
        r@ == chars@.subrange(from as int, to as int),
{
    let mut s = String::new();
    let mut i = from;
    while i < to
        invariant
            from <= i <= to,
            to <= chars@.len(),
            s@ == chars@.subrange(from as int, i as int),
        decreases to - i,
    {
        push_char(&mut s, chars[i]);
        assert(s@ =~= chars@.subrange(from as int, i + 1));
        i = i + 1;
    }
    s
}

proof fn lemma_digits_push(s: Seq<char>, c: char)
    ensures
        digits_value(s.push(c)) == digits_value(s) * 10 + (c as int - '0' as int),
{
    assert(s.push(c).drop_last() =~= s);
}

proof fn lemma_digits_nonneg(s: Seq<char>)
    requires
        forall|i: int| 0 <= i < s.len() ==> is_digit(#[trigger] s[i]),
    ensures
        digits_value(s) >= 0,
    decreases s.len(),
{
    if s.len() > 0 {
        lemma_digits_nonneg(s.drop_last());
    }
}

impl DataType {
    /// The integer written in `item` (an optional sign, then digits), if it fits in 32 bits.
    pub fn parse_num(item: &Vec<char>) -> (r: Option<i32>)
        ensures
            match decimal_of(item@) {
                Some(v) => if i32::MIN <= v <= i32::MAX { r == Some(v as i32) } else { r is None },
                None => r is None,
            },
    {
        let n = item.len();
        if n == 0 {
            return None;
        }
        let neg = item[0] == '-';
        let start: usize = if item[0] == '-' || item[0] == '+' { 1 } else { 0 };
        let ghost ds = item@.skip(start as int);
        assert(start as int == sign_len(item@));
        if start >= n {
            return None;
        }
        let mut acc: i64 = 0;
        let mut i = start;
        while i < n
            invariant
                start <= i <= n,
                n == item@.len(),
                start as int == sign_len(item@),
                neg == (item@[0] == '-'),
                ds == item@.skip(start as int),
                forall|j: int| 0 <= j < i - start ==> is_digit(#[trigger] ds[j]),
                acc == digits_value(ds.take(i - start)),
                0 <= acc <= 0x8000_0000,
            decreases n - i,
        {
            let c = item[i];
            assert(ds[i - start] == item@[i as int]);
            if !('0' <= c && c <= '9') {
                assert(!is_digit(ds[i - start]));
                assert(sign_len(item@) == start);
                assert(!all_digits(ds));
                return None;
            }
            proof {
                assert(ds.take(i - start + 1) =~= ds.take(i - start).push(c));
                lemma_digits_push(ds.take(i - start), c);
            }
            acc = acc * 10 + (c as u32 - '0' as u32) as i64;
            assert(is_digit(ds[i - start]));
            assert(forall|j: int| 0 <= j < i - start + 1 ==> is_digit(#[trigger] ds[j]));
            if acc > 0x8000_0000 {
                proof {
                    assert(sign_len(item@) == start);
                    lemma_digits_big(ds, i - start + 1);
                }
                return None;
            }
            i = i + 1;
        }
        assert(ds.take(n - start) =~= ds);
        assert(sign_len(item@) == start);
        assert(all_digits(ds));
        if neg {
            Some((-acc) as i32)
        } else if acc <= 0x7fff_ffff {
            Some(acc as i32)
        } else {
            None
        }
    }
}

/// Once a prefix of digits is over the bound, so is the whole.
proof fn lemma_digits_big(ds: Seq<char>, k: int)
    requires
        0 < k <= ds.len(),
        digits_value(ds.take(k)) > 0x8000_0000,
        forall|j: int| 0 <= j < k ==> is_digit(#[trigger] ds[j]),
    ensures
        all_digits(ds) ==> digits_value(ds) > 0x8000_0000,
    decreases ds.len() - k,
{
    if k < ds.len() {
        if all_digits(ds) {
            assert(ds.take(k + 1) =~= ds.take(k).push(ds[k]));
            lemma_digits_push(ds.take(k), ds[k]);
            lemma_digits_big(ds, k + 1);
        }
    } else {
        assert(ds.take(k) =~= ds);
    }
}


/// The token of a delimiter or quote character.
pub open spec fn single_token(c: char) -> Option<Token> {
    if c == '(' { Some(Token::OpenParen) }
    else if c == ')' { Some(Token::CloseParen) }
    else if c == '[' { Some(Token::OpenBracket) }
    else if c == ']' { Some(Token::CloseBracket) }
    else if c == '{' { Some(Token::OpenBraces) }
    else if c == '}' { Some(Token::CloseBraces) }
    else if c == '\'' { Some(Token::SingleQuote) }
    else { None }
}

/// The token that a single character stands for.
pub open spec fn token_of_char(c: char) -> Option<Token> {
    if c == '.' { Some(Token::Dot) }
    else if c == ' ' { Some(Token::Whitespace) }
    else if c == ';' { Some(Token::Comment) }
    else { single_token(c) }
}

/// Whether `c` ends a word.
pub open spec fn ends_word(c: char) -> bool {
    token_of_char(c) is Some || is_space(c) || c == '"'
}

/// The position of the first character in `s` that stands for a token of
/// its own, or the length of `s`.
pub open spec fn first_single(s: Seq<char>) -> int
    decreases s.len(),
{
    if s.len() == 0 {
        0
    } else if token_of_char(s[0]) is Some {
        0
    } else {
        1 + first_single(s.skip(1))
    }
}

impl Token {
    /// The token that `c` stands for on its own, if any.
    pub fn try_single(c: char) -> (r: Option<Token>)
        ensures
            r == token_of_char(c),
    {
        if c == '.' { Some(Token::Dot) }
        else if c == ' ' { Some(Token::Whitespace) }
        else if c == ';' { Some(Token::Comment) }
        else { delimiter(c) }
    }

    /// The token of a word: a literal where it reads as one, else a name.
    pub fn multiple(item: &Vec<char>) -> (r: Token)
        ensures
            match DataType::literal_of(item@) {
                Some(l) => r is Primitive && r->Primitive_0@ == l,
                None => r is Ident && r->Ident_0@ == item@.take(first_single(item@)),
            },
    {
        match DataType::parse(item) {
            Some(d) => Token::Primitive(d),
            None => Self::parse_function(item),
        }
    }

    /// The name token of a word: its longest start that holds no character
    /// standing for a token of its own (a space among them).
    pub fn parse_function(item: &Vec<char>) -> (r: Token)
        ensures
            r is Ident && r->Ident_0@ == item@.take(first_single(item@)),
    {
        let mut k: usize = 0;
        assert(item@.skip(0) =~= item@);
        while k < item.len() && Self::try_single(item[k]).is_none()
            invariant
                k <= item@.len(),
                first_single(item@) == k + first_single(item@.skip(k as int)),
            decreases item@.len() - k,
        {
            assert(item@.skip(k as int).skip(1) =~= item@.skip(k + 1));
            assert(item@.skip(k as int)[0] == item@[k as int]);
            k = k + 1;
        }
        if k == item.len() {
            assert(item@.skip(k as int).len() == 0);
        } else {
            assert(item@.skip(k as int)[0] == item@[k as int]);
        }
        assert(first_single(item@) == k);
        Token::Ident(text_of(item, 0, k))
    }
}

/// The token of a delimiter or quote character.
fn delimiter(c: char) -> (r: Option<Token>)
    ensures
        r == single_token(c),
{
    if c == '(' { Some(Token::OpenParen) }
    else if c == ')' { Some(Token::CloseParen) }
    else if c == '[' { Some(Token::OpenBracket) }
    else if c == ']' { Some(Token::CloseBracket) }
    else if c == '{' { Some(Token::OpenBraces) }
    else if c == '}' { Some(Token::CloseBraces) }
    else if c == '\'' { Some(Token::SingleQuote) }
    else { None }
}


/// The end of a comment whose text starts at `j`: the next newline, or the end.
pub open spec fn comment_end(s: Seq<char>, j: int) -> int
    decreases s.len() - j,
{
    if j >= s.len() || s[j] == '\n' { j } else { comment_end(s, j + 1) }
}

/// The position of the next character from `i` on that is neither white
/// space nor part of a comment.
pub open spec fn skip_ws(s: Seq<char>, i: int) -> int
    decreases s.len() - i,
{
    if i < 0 || i >= s.len() {
        i
    } else if s[i] == ';' {
        let e = comment_end(s, i + 1);
        if i < e <= s.len() { skip_ws(s, e) } else { i }
    } else if is_space(s[i]) {
        skip_ws(s, i + 1)
    } else {
        i
    }
}

/// A string literal's text from `i` on (after its opening quote): its
/// characters with escapes resolved, and the position after the closing quote.
pub open spec fn str_lit(s: Seq<char>, i: int, acc: Seq<char>) -> Option<(Seq<char>, int)>
    decreases s.len() - i,
{
    if i < 0 || i >= s.len() {
        None
    } else if s[i] == '"' {
        Some((acc, i + 1))
    } else if s[i] == '\\' && i + 1 < s.len() {
        str_lit(s, i + 2, acc.push(if s[i + 1] == 'n' { '\n' } else { s[i + 1] }))
    } else {
        str_lit(s, i + 1, acc.push(s[i]))
    }
}

/// The end of the word that starts at `i`.
pub open spec fn word_stop(s: Seq<char>, i: int) -> int
    decreases s.len() - i,
{
    if i < 0 || i >= s.len() || ends_word(s[i]) { i } else { word_stop(s, i + 1) }
}

/// Model of a token: punctuation, a literal, or a name.
pub enum TokenModel {
    Punct(Token),
    Lit(Lit),
    Name(Seq<char>),
}

pub open spec fn token_model(t: Token) -> TokenModel {
    match t {
        Token::Primitive(p) => TokenModel::Lit(p@),
        Token::Ident(n) => TokenModel::Name(n@),
        other => TokenModel::Punct(other),
    }
}

/// The token a word reads as.
pub open spec fn word_model(w: Seq<char>) -> TokenModel {
    match DataType::literal_of(w) {
        Some(l) => TokenModel::Lit(l),
        None => TokenModel::Name(w.take(first_single(w))),
    }
}

/// The next token from position `i` on, and the position after it; `Some(None)`
/// at the end of the text, `None` for an unterminated string.
pub open spec fn next_token(s: Seq<char>, i: int) -> Option<Option<(TokenModel, int)>> {
    let st = skip_ws(s, i);
    if st >= s.len() {
        Some(None)
    } else if token_of_char(s[st]) is Some {
        Some(Some((TokenModel::Punct(token_of_char(s[st]).unwrap()), st + 1)))
    } else if s[st] == '"' {
        match str_lit(s, st + 1, Seq::empty()) {
            None => None,
            Some(p) => Some(Some((TokenModel::Lit(Lit::Str(p.0)), p.1))),
        }
    } else {
        let e = word_stop(s, st);
        Some(Some((word_model(s.subrange(st, e)), e)))
    }
}

/// The tokens of the text from position `i` on; none where a string is unterminated.
pub open spec fn lex(s: Seq<char>, i: int) -> Option<Seq<TokenModel>>
    decreases s.len() - i,
{
    match next_token(s, i) {
        None => None,
        Some(None) => Some(Seq::empty()),
        Some(Some(p)) => if i < p.1 <= s.len() {
            match lex(s, p.1) {
                None => None,
                Some(ts) => Some(seq![p.0] + ts),
            }
        } else {
            None
        },
    }
}

pub open spec fn tokens_model(s: Seq<LocatedToken>) -> Seq<TokenModel> {
    s.map_values(|t: LocatedToken| token_model(t.token))
}

proof fn lemma_comment_end_bounds(s: Seq<char>, j: int)
    requires
        0 <= j <= s.len(),
    ensures
        j <= comment_end(s, j) <= s.len(),
    decreases s.len() - j,
{
    if j < s.len() && s[j] != '\n' {
        lemma_comment_end_bounds(s, j + 1);
    }
}

/// The position in `buf` where the word starting at `from` ends.
fn word_end(buf: &Vec<char>, from: usize) -> (r: usize)
    requires
        from <= buf@.len(),
    ensures
        from <= r <= buf@.len(),
        r == buf@.len() || ends_word(buf@[r as int]),
        forall|j: int| from <= j < r ==> !ends_word(#[trigger] buf@[j]),
        r as int == word_stop(buf@, from as int),
{
    let mut j = from;
    while j < buf.len()
        invariant
            from <= j <= buf@.len(),
            word_stop(buf@, from as int) == word_stop(buf@, j as int),
            forall|k: int| from <= k < j ==> !ends_word(#[trigger] buf@[k]),
        decreases buf@.len() - j,
    {
        let c = buf[j];
        if Token::try_single(c).is_some() || c == '\n' || c == '\r' || c == '\t' || c == '"' {
            return j;
        }
        j = j + 1;
    }
    j
}

/// A cursor over source text that keeps the current line.
pub struct LexerCursor {
    buf: Vec<char>,
    line: usize,
    buf_position: usize,
}

impl LexerCursor {
    pub closed spec fn position(&self) -> int {
        self.buf_position as int
    }

    pub closed spec fn text(&self) -> Seq<char> {
        self.buf@
    }

    pub closed spec fn wf(&self) -> bool {
        &&& self.buf_position <= self.buf@.len()
        &&& self.buf@.len() < usize::MAX
        &&& 1 <= self.line <= self.buf_position + 1
    }

    pub fn new(buf: Vec<char>) -> (r: LexerCursor)
        requires
            buf@.len() < usize::MAX,
        ensures
            r.wf(),
            r.position() == 0,
            r.text() == buf@,
            r.spec_line() == 1,
    {
        LexerCursor { buf, line: 1, buf_position: 0 }
    }

    /// The line the cursor is on, counted from 1.
    pub fn line(&self) -> (r: usize)
        ensures
            r == self.spec_line(),
    {
        self.line
    }

    pub closed spec fn spec_line(&self) -> usize {
        self.line
    }

    /// The number of characters not read yet.
    pub fn remaining(&self) -> (r: usize)
        requires
            self.wf(),
        ensures
            r == self.text().len() - self.position(),
    {
        self.buf.len() - self.buf_position
    }

    /// Skips white space and comments (`;` to the end of the line), counting lines.
    fn ignore_newline(&mut self)
        requires
            old(self).wf(),
        ensures
            final(self).wf(),
            final(self).text() == old(self).text(),
            old(self).position() <= final(self).position(),
            final(self).position() == skip_ws(old(self).text(), old(self).position()),
            final(self).position() == final(self).text().len()
                || !is_space(final(self).text()[final(self).position()])
                    && final(self).text()[final(self).position()] != ';',
    {
        while self.buf_position < self.buf.len()
            invariant
                self.wf(),
                self.text() == old(self).text(),
                old(self).position() <= self.position(),
                skip_ws(old(self).text(), old(self).position()) == skip_ws(self.text(), self.position()),
            decreases self.buf@.len() - self.buf_position,
        {
            let c = self.buf[self.buf_position];
            if c == ';' {
                let ghost semi = self.buf_position as int;
                self.buf_position = self.buf_position + 1;
                let ghost start_pos = self.buf_position;
                proof {
                    lemma_comment_end_bounds(self.buf@, start_pos as int);
                }
                while self.buf_position < self.buf.len() && self.buf[self.buf_position] != '\n'
                    invariant
                        start_pos <= self.buf_position,
                        comment_end(self.buf@, start_pos as int) == comment_end(self.buf@, self.buf_position as int),
                        skip_ws(old(self).text(), old(self).position()) == skip_ws(self.text(), semi),
                        self.buf@[semi] == ';',
                        semi < start_pos,
                        self.wf(),
                        self.text() == old(self).text(),
                        old(self).position() <= self.position(),
                    decreases self.buf@.len() - self.buf_position,
                {
                    self.buf_position = self.buf_position + 1;
                }
            } else if c == '\n' {
                self.buf_position = self.buf_position + 1;
                self.line = self.line + 1;
            } else if c == ' ' || c == '\r' || c == '\t' {
                self.buf_position = self.buf_position + 1;
            } else {
                return;
            }
        }
    }

    /// Reads the string literal whose opening quote is at the cursor; `\"`,
    /// `\\` and `\n` stand for a quote, a backslash and a newline.
    fn string_literal(&mut self) -> (r: Result<String, LexerError>)
        requires
            old(self).wf(),
            old(self).position() < old(self).text().len(),
        ensures
            final(self).wf(),
            final(self).text() == old(self).text(),
            r is Ok ==> old(self).position() < final(self).position(),
            match str_lit(old(self).text(), old(self).position() + 1, Seq::empty()) {
                Some(p) => r is Ok && r->Ok_0@ == p.0 && final(self).position() == p.1,
                None => r is Err,
            },
    {
        let start_line = self.line;
        let mut line = self.line;
        let mut out = String::new();
        let mut i = self.buf_position + 1;
        while i < self.buf.len()
            invariant
                self.wf(),
                self.text() == old(self).text(),
                self.buf_position == old(self).position(),
                self.buf_position < i,
                1 <= line <= i,
                i <= self.buf@.len(),
                str_lit(old(self).text(), old(self).position() + 1, Seq::empty())
                    == str_lit(self.text(), i as int, out@),
            decreases self.buf@.len() + 1 - i,
        {
            let c = self.buf[i];
            if c == '"' {
                self.buf_position = i + 1;
                self.line = line;
                return Ok(out);
            } else if c == '\\' && i + 1 < self.buf.len() {
                let e = self.buf[i + 1];
                if e == 'n' {
                    push_char(&mut out, '\n');
                } else {
                    push_char(&mut out, e);
                }
                i = i + 2;
            } else {
                if c == '\n' {
                    line = line + 1;
                }
                push_char(&mut out, c);
                i = i + 1;
            }
        }
        Err(LexerError::UnterminatedString { line: start_line })
    }

    /// Reads the next token; none at the end of the text.
    pub fn parse_with(&mut self) -> (r: Result<Option<LocatedToken>, LexerError>)
        requires
            old(self).wf(),
        ensures
            final(self).wf(),
            final(self).text() == old(self).text(),
            r matches Ok(Some(_)) ==> old(self).position() < final(self).position(),
            r matches Ok(Some(t)) ==> t.line >= 1,
            r matches Ok(None) ==> final(self).position() == final(self).text().len(),
            match next_token(old(self).text(), old(self).position()) {
                None => r is Err,
                Some(None) => r == Ok::<Option<LocatedToken>, LexerError>(None),
                Some(Some(p)) => r is Ok && r->Ok_0 is Some && token_model(r->Ok_0->Some_0.token) == p.0
                    && final(self).position() == p.1,
            },
    {
        self.ignore_newline();
        if self.buf_position >= self.buf.len() {
            return Ok(None);
        }
        let line = self.line;
        let c = self.buf[self.buf_position];
        match Token::try_single(c) {
            Some(t) => {
                self.buf_position = self.buf_position + 1;
                return Ok(Some(LocatedToken { line, token: t }));
            },
            None => {},
        }
        if c == '"' {
            return match self.string_literal() {
                Ok(s) => Ok(Some(LocatedToken { line, token: Token::Primitive(DataType::String(s)) })),
                Err(e) => Err(e),
            };
        }
        let end = word_end(&self.buf, self.buf_position);
        let word = slice_of(&self.buf, self.buf_position, end);
        self.buf_position = end;
        Ok(Some(LocatedToken { line, token: Token::multiple(&word) }))
    }
}

/// The characters `buf[from..to]`.
fn slice_of(buf: &Vec<char>, from: usize, to: usize) -> (r: Vec<char>)
    requires
        from <= to <= buf@.len(),
    ensures
        r@ == buf@.subrange(from as int, to as int),
{
    let mut out: Vec<char> = Vec::new();
    let mut i = from;
    while i < to
        invariant
            from <= i <= to,
            to <= buf@.len(),
            out@ == buf@.subrange(from as int, i as int),
        decreases to - i,
    {
        out.push(buf[i]);
        assert(out@ =~= buf@.subrange(from as int, i + 1));
        i = i + 1;
    }
    out
}

/// Splits source text into tokens.
pub struct Lexer {
    cursor: LexerCursor,
}

impl Lexer {
    pub closed spec fn wf(&self) -> bool {
        self.cursor.wf()
    }

    /// The source text.
    pub closed spec fn text(&self) -> Seq<char> {
        self.cursor.text()
    }

    /// Where reading starts.
    pub closed spec fn position(&self) -> int {
        self.cursor.position()
    }

    pub fn new(buf: Vec<char>) -> (r: Lexer)
        requires
            buf@.len() < usize::MAX,
        ensures
            r.wf(),
            r.text() == buf@,
            r.position() == 0,
    {
        Lexer { cursor: LexerCursor::new(buf) }
    }

    /// All tokens of the text, in order, or the error of an unterminated string.
    pub fn parse_all(self) -> (r: Result<Vec<LocatedToken>, LexerError>)
        requires
            self.wf(),
        ensures
            r is Ok ==> forall|i: int| 0 <= i < r->Ok_0@.len() ==> #[trigger] r->Ok_0@[i].line >= 1,
            match lex(self.text(), self.position()) {
                Some(ts) => r is Ok && tokens_model(r->Ok_0@) == ts,
                None => r is Err,
            },
    {
        let mut cursor = self.cursor;
        let ghost text = cursor.text();
        let mut out: Vec<LocatedToken> = Vec::new();
        proof {
            assert(tokens_model(out@) =~= Seq::<TokenModel>::empty());
            match lex(text, cursor.position()) {
                Some(ts) => {
                    assert(Seq::<TokenModel>::empty() + ts =~= ts);
                },
                None => {},
            }
        }
        loop
            invariant
                cursor.wf(),
                cursor.text() == text,
                self.text() == text,
                forall|i: int| 0 <= i < out@.len() ==> #[trigger] out@[i].line >= 1,
                lex(text, self.position()) == match lex(text, cursor.position()) {
                    Some(ts) => Some(tokens_model(out@) + ts),
                    None => None::<Seq<TokenModel>>,
                },
            decreases cursor.text().len() - cursor.position(),
        {
            let ghost before = cursor.position();
            match cursor.parse_with() {
                Ok(Some(t)) => {
                    proof {
                        let m = token_model(t.token);
                        assert(tokens_model(out@.push(t)) =~= tokens_model(out@) + seq![m]);
                        match lex(text, cursor.position()) {
                            Some(ts) => {
                                assert(tokens_model(out@) + (seq![m] + ts) =~= (tokens_model(out@) + seq![m]) + ts);
                            },
                            None => {},
                        }
                    }
                    out.push(t);
                },
                Ok(None) => {
                    assert(next_token(text, before) == Some(None::<(TokenModel, int)>));
                    assert(lex(text, before) == Some(Seq::<TokenModel>::empty()));
                    assert(tokens_model(out@) + Seq::<TokenModel>::empty() =~= tokens_model(out@));
                    return Ok(out);
                },
                Err(e) => {
                    assert(next_token(text, before) is None);
                    assert(lex(text, before) is None);
                    return Err(e);
                },
            }
        }
    }

    /// The same as `parse_all`.
    pub fn parse(self) -> (r: Result<Vec<LocatedToken>, LexerError>)
        requires
            self.wf(),
        ensures
            match lex(self.text(), self.position()) {
                Some(ts) => r is Ok && tokens_model(r->Ok_0@) == ts,
                None => r is Err,
            },
    {
        self.parse_all()
    }
}

/// The radix of a `#x`, `#o` or `#b` prefix letter.
pub open spec fn repr_of(c: char) -> Option<Repr> {
    if c == 'x' { Some(Repr::Hex) } else if c == 'o' { Some(Repr::Octal) } else if c == 'b' { Some(Repr::Binary) } else { None }
}

pub open spec fn has_digit(s: Seq<char>) -> bool {
    exists|i: int| 0 <= i < s.len() && is_digit(#[trigger] s[i])
}

/// The position of the first `c` in `s`, or the length of `s`.
pub open spec fn first_index(s: Seq<char>, c: char) -> int
    decreases s.len(),
{
    if s.len() == 0 {
        0
    } else if s[0] == c {
        0
    } else {
        1 + first_index(s.skip(1), c)
    }
}

/// The 32-bit integer written in `s`.
pub open spec fn int32_of(s: Seq<char>) -> Option<i32> {
    match decimal_of(s) {
        Some(v) => if i32::MIN <= v <= i32::MAX { Some(v as i32) } else { None },
        None => None,
    }
}

impl DataType {
    /// The literal a word reads as: `#t`, `#f`, `#\\c`, `#x..`, `#o..`, `#b..`,
    /// a rational `a/b` or an integer. Any other word is a name.
    pub open spec fn literal_of(s: Seq<char>) -> Option<Lit> {
        if s.len() == 0 {
            None
        } else if s[0] == '#' {
            if s == seq!['#', 't'] {
                Some(Lit::Bool(true))
            } else if s == seq!['#', 'f'] {
                Some(Lit::Bool(false))
            } else if s.len() >= 2 && s[1] == '\\' {
                Some(Lit::Char(s.skip(2)))
            } else if s.len() >= 2 && repr_of(s[1]) is Some {
                Some(Lit::Number(repr_of(s[1]).unwrap(), s))
            } else {
                None
            }
        } else if has_digit(s) {
            let k = first_index(s, '/');
            if k < s.len() {
                match (int32_of(s.take(k)), int32_of(s.skip(k + 1))) {
                    (Some(a), Some(b)) => Some(Lit::Rational(Rational { left: a, right: b })),
                    _ => None,
                }
            } else if first_index(s, 'i') < s.len() {
                match complex_of_word(s) {
                    Some(c) => Some(Lit::Complex(c)),
                    None => None,
                }
            } else {
                match int32_of(s) {
                    Some(i) => Some(Lit::Int(i)),
                    None => None,
                }
            }
        } else {
            None
        }
    }

    /// The literal a word reads as, if any.
    pub fn parse(item: &Vec<char>) -> (r: Option<DataType>)
        ensures
            match DataType::literal_of(item@) {
                Some(l) => r is Some && r.unwrap()@ == l,
                None => r is None,
            },
    {
        let n = item.len();
        if n == 0 {
            return None;
        }
        if item[0] == '#' {
            return Self::parse_prefixed(item);
        }
        if !contains_digit(item) {
            return None;
        }
        let k = find_char(item, '/');
        if k < n {
            Self::parse_rational(item, k)
        } else if find_char(item, 'i') < n {
            Self::parse_complex(item)
        } else {
            match Self::parse_num(item) {
                Some(i) => Some(DataType::Integer(i)),
                None => None,
            }
        }
    }

    fn parse_prefixed(item: &Vec<char>) -> (r: Option<DataType>)
        requires
            item@.len() > 0,
            item@[0] == '#',
        ensures
            match DataType::literal_of(item@) {
                Some(l) => r is Some && r.unwrap()@ == l,
                None => r is None,
            },
    {
        let n = item.len();
        if n < 2 {
            return None;
        }
        let c = item[1];
        if n == 2 && c == 't' {
            assert(item@ =~= seq!['#', 't']);
            return Some(DataType::Boolean(true));
        }
        if n == 2 && c == 'f' {
            assert(item@ =~= seq!['#', 'f']);
            return Some(DataType::Boolean(false));
        }
        assert(item@ != seq!['#', 't'] && item@ != seq!['#', 'f']) by {
            if n != 2 {
                assert(item@.len() != seq!['#', 't'].len());
            }
        };
        if c == '\\' {
            let text = text_of(item, 2, n);
            assert(text@ =~= item@.skip(2));
            return Some(DataType::Character(text));
        }
        if c == 'x' {
            return Some(DataType::Hex(Self::parse_literal_number(Repr::Hex, item)));
        }
        if c == 'o' {
            return Some(DataType::Octal(Self::parse_literal_number(Repr::Octal, item)));
        }
        if c == 'b' {
            return Some(DataType::Binary(Self::parse_literal_number(Repr::Binary, item)));
        }
        None
    }

    /// A prefixed number literal, kept as written.
    pub fn parse_literal_number(repr: Repr, item: &Vec<char>) -> (r: LiteralNumber)
        ensures
            r.repr == repr,
            r.inner@ == item@,
    {
        let n = item.len();
        let inner = text_of(item, 0, n);
        assert(inner@ =~= item@);
        LiteralNumber { inner, repr }
    }

    fn parse_rational(item: &Vec<char>, k: usize) -> (r: Option<DataType>)
        requires
            k < item@.len(),
        ensures
            match (int32_of(item@.take(k as int)), int32_of(item@.skip(k + 1))) {
                (Some(a), Some(b)) => r == Some(DataType::Rational(Rational { left: a, right: b })),
                _ => r is None,
            },
    {
        let n = item.len();
        let left = slice_of(item, 0, k);
        let right = slice_of(item, k + 1, n);
        assert(left@ =~= item@.take(k as int));
        assert(right@ =~= item@.skip(k + 1));
        match (Self::parse_num(&left), Self::parse_num(&right)) {
            (Some(a), Some(b)) => Some(DataType::Rational(Rational { left: a, right: b })),
            _ => None,
        }
    }
}

fn contains_digit(item: &Vec<char>) -> (r: bool)
    ensures
        r == has_digit(item@),
{
    let mut i: usize = 0;
    while i < item.len()
        invariant
            i <= item@.len(),
            forall|j: int| 0 <= j < i ==> !is_digit(#[trigger] item@[j]),
        decreases item@.len() - i,
    {
        let c = item[i];
        if '0' <= c && c <= '9' {
            assert(is_digit(item@[i as int]));
            return true;
        }
        i = i + 1;
    }
    false
}

fn find_char(item: &Vec<char>, c: char) -> (r: usize)
    ensures
        r as int == first_index(item@, c),
        r <= item@.len(),
{
    let mut i: usize = 0;
    assert(item@.skip(0) =~= item@);
    while i < item.len()
        invariant
            i <= item@.len(),
            first_index(item@, c) == i + first_index(item@.skip(i as int), c),
        decreases item@.len() - i,
    {
        assert(item@.skip(i as int).skip(1) =~= item@.skip(i + 1));
        if item[i] == c {
            return i;
        }
        i = i + 1;
    }
    i
}


/// The capture groups of the first match of `pattern` in `subject`, as pcre2 finds them.
pub uninterp spec fn pcre2_captures(pattern: Seq<char>, subject: Seq<u8>) -> Option<Seq<Option<Seq<u8>>>>;

/// Relies on pcre2's `bytes::Regex::new` and `Regex::captures`: the groups of
/// the first match of `pattern` in `subject` (group 0 is the whole match), none
/// where nothing matches or pcre2 reports an error.
#[verifier::external_body]
fn regex_captures(pattern: &str, subject: &[u8]) -> (r: Option<Vec<Option<Vec<u8>>>>)
    ensures
        r.deep_view() == pcre2_captures(pattern@, subject@),
{
    let re = pcre2::bytes::Regex::new(pattern).ok()?;
    let caps = re.captures(subject).ok()??;
    Some((0..caps.len()).map(|i| caps.get(i).map(|m| m.as_bytes().to_vec())).collect())
}

/// The pattern of a complex literal: `a+bi`, `bi`, `i`, or a polar form `r e^(bi)`.
pub open spec fn complex_pattern() -> Seq<char> {
    r"[+-]?(((\d+\.\d*|\d*\.\d+|\d+)[+-])?((\d+\.\d*|\d*\.\d+|\d+)i|i(\d+\.\d*|\d*\.\d+|\d+)|i)|(\d+\.\d*|\d*\.\d+|\d+)?e\^(\([+-]?|[+-]?\()((\d+\.\d*|\d*\.\d+|\d+)i|i(\d+\.\d*|\d*\.\d+|\d+)|i)\))"@
}

pub open spec fn is_ascii_text(s: Seq<char>) -> bool {
    forall|i: int| 0 <= i < s.len() ==> (#[trigger] s[i] as u32) < 128
}

pub open spec fn ascii_bytes(s: Seq<char>) -> Seq<u8> {
    s.map_values(|c: char| c as u8)
}

pub open spec fn chars_of(b: Seq<u8>) -> Seq<char> {
    b.map_values(|x: u8| x as char)
}

/// Group `i`, if it took part in the match.
pub open spec fn group(caps: Seq<Option<Seq<u8>>>, i: int) -> Option<Seq<u8>> {
    if 0 <= i < caps.len() { caps[i] } else { None }
}

pub open spec fn starts_with_byte(g: Option<Seq<u8>>, b: u8) -> bool {
    g is Some && g.unwrap().len() > 0 && g.unwrap()[0] == b
}

pub open spec fn ends_with_byte(g: Option<Seq<u8>>, b: u8) -> bool {
    g is Some && g.unwrap().len() > 0 && g.unwrap().last() == b
}

/// `v`, negated when `neg`, if the result fits in 32 bits.
pub open spec fn signed(v: i32, neg: bool) -> Option<i32> {
    if !neg { Some(v) } else if v == i32::MIN { None } else { Some((-v) as i32) }
}

/// A complex number from the groups of a match: group 3 holds the real part,
/// group 5 the imaginary one; a `-` starting the match negates the real part,
/// and one ending group 2 the imaginary part.
pub open spec fn complex_from_groups(caps: Seq<Option<Seq<u8>>>) -> Option<Complex> {
    let minus_real = starts_with_byte(group(caps, 0), 45);
    let minus_im = ends_with_byte(group(caps, 2), 45);
    let prefix = minus_real || starts_with_byte(group(caps, 0), 43);
    if caps.len() == 0 {
        None
    } else {
        match (group(caps, 3), group(caps, 5)) {
            (Some(r), Some(m)) => match (int32_of(chars_of(r)), int32_of(chars_of(m))) {
                (Some(a), Some(b)) => match (signed(a, minus_real), signed(b, minus_im)) {
                    (Some(x), Some(y)) => Some(Complex { includes_prefix: prefix, real: x, imaginary: y }),
                    _ => None,
                },
                _ => None,
            },
            _ => None,
        }
    }
}

/// The complex number a word reads as.
pub open spec fn complex_of_word(s: Seq<char>) -> Option<Complex> {
    if is_ascii_text(s) {
        match pcre2_captures(complex_pattern(), ascii_bytes(s)) {
            Some(caps) => complex_from_groups(caps),
            None => None,
        }
    } else {
        None
    }
}

fn group_of(caps: &Vec<Option<Vec<u8>>>, i: usize) -> (r: Option<&Vec<u8>>)
    ensures
        match group(caps.deep_view(), i as int) {
            Some(g) => r is Some && r.unwrap()@ == g,
            None => r is None,
        },
{
    if i < caps.len() {
        match &caps[i] {
            Some(g) => Some(g),
            None => None,
        }
    } else {
        None
    }
}

/// The integer written in ASCII bytes.
fn parse_num_bytes(b: &Vec<u8>) -> (r: Option<i32>)
    ensures
        r == int32_of(chars_of(b@)),
{
    let mut chars: Vec<char> = Vec::with_capacity(b.len());
    let mut i: usize = 0;
    while i < b.len()
        invariant
            i <= b@.len(),
            chars@ == chars_of(b@.take(i as int)),
        decreases b@.len() - i,
    {
        chars.push(b[i] as char);
        assert(chars@ =~= chars_of(b@.take(i + 1)));
        i = i + 1;
    }
    assert(b@.take(i as int) =~= b@);
    DataType::parse_num(&chars)
}

fn signed_of(v: i32, neg: bool) -> (r: Option<i32>)
    ensures
        r == signed(v, neg),
{
    if !neg {
        Some(v)
    } else if v == i32::MIN {
        None
    } else {
        Some(-v)
    }
}

impl DataType {
    /// The complex number a word reads as, found by matching it against the complex pattern.
    pub fn parse_complex(item: &Vec<char>) -> (r: Option<DataType>)
        ensures
            match complex_of_word(item@) {
                Some(c) => r == Some(DataType::Complex(c)),
                None => r is None,
            },
    {
        let mut subject: Vec<u8> = Vec::with_capacity(item.len());
        let mut i: usize = 0;
        while i < item.len()
            invariant
                i <= item@.len(),
                subject@ == ascii_bytes(item@.take(i as int)),
                is_ascii_text(item@.take(i as int)),
            decreases item@.len() - i,
        {
            let c = item[i];
            if (c as u32) >= 128 {
                assert(!is_ascii_text(item@));
                return None;
            }
            subject.push(c as u8);
            assert(subject@ =~= ascii_bytes(item@.take(i + 1)));
            i = i + 1;
        }
        assert(item@.take(i as int) =~= item@);
        let pattern = r"[+-]?(((\d+\.\d*|\d*\.\d+|\d+)[+-])?((\d+\.\d*|\d*\.\d+|\d+)i|i(\d+\.\d*|\d*\.\d+|\d+)|i)|(\d+\.\d*|\d*\.\d+|\d+)?e\^(\([+-]?|[+-]?\()((\d+\.\d*|\d*\.\d+|\d+)i|i(\d+\.\d*|\d*\.\d+|\d+)|i)\))";
        assert(pattern@ == complex_pattern());
        let caps = match regex_captures(pattern, subject.as_slice()) {
            Some(c) => c,
            None => {
                return None;
            },
        };
        if caps.len() == 0 {
            return None;
        }
        let g0 = group_of(&caps, 0);
        let g2 = group_of(&caps, 2);
        let minus_real = match g0 {
            Some(g) => g.len() > 0 && g[0] == 45u8,
            None => false,
        };
        let minus_im = match g2 {
            Some(g) => g.len() > 0 && g[g.len() - 1] == 45u8,
            None => false,
        };
        let plus_real = match g0 {
            Some(g) => g.len() > 0 && g[0] == 43u8,
            None => false,
        };
        let real_part = match group_of(&caps, 3) {
            Some(g) => match parse_num_bytes(g) {
                Some(v) => v,
                None => {
                    return None;
                },
            },
            None => {
                return None;
            },
        };
        let imaginary = match group_of(&caps, 5) {
            Some(g) => match parse_num_bytes(g) {
                Some(v) => v,
                None => {
                    return None;
                },
            },
            None => {
                return None;
            },
        };
        match (signed_of(real_part, minus_real), signed_of(imaginary, minus_im)) {
            (Some(x), Some(y)) => Some(DataType::Complex(Complex {
                includes_prefix: minus_real || plus_real,
                real: x,
                imaginary: y,
            })),
            _ => None,
        }
    }
}

} // verus!
