//! Lexer for tokenizing Inko source code.
use vstd::prelude::*;

verus! {

/// The longest input a lexer accepts, so that line and column counters fit.
pub const MAX_INPUT_LEN: usize = 0x1000_0000;

#[derive(Debug, Clone, Copy, PartialEq, Eq, Structural)]
pub enum TokenType {
    Add,
    AddAssign,
    And,
    AndAssign,
    Arrow,
    Assign,
    Attribute,
    BitwiseAnd,
    BitwiseAndAssign,
    BitwiseOr,
    BitwiseOrAssign,
    BitwiseXor,
    BitwiseXorAssign,
    BracketClose,
    BracketOpen,
    Colon,
    ColonColon,
    Comment,
    Constant,
    CurlyClose,
    CurlyOpen,
    Div,
    DivAssign,
    Enum,
    Equal,
    Float,
    Greater,
    Identifier,
    Impl,
    Import,
    Integer,
    Let,
    Lower,
    Member,
    Modulo,
    ModuloAssign,
    Mul,
    MulAssign,
    Not,
    NotEqual,
    Object,
    Or,
    OrAssign,
    ParenClose,
    ParenOpen,
    Pow,
    PowAssign,
    Return,
    Self_,
    ShiftLeft,
    ShiftRight,
    String,
    Sub,
    SubAssign,
    Trait,
    Var,
}

#[derive(Debug)]
pub struct Token {
    pub token_type: TokenType,
    pub value: String,
    pub line: usize,
    pub column: usize,
}

pub enum LexerError {
    InvalidUtf8,
}

pub struct Lexer {
    pub input: Vec<char>,
    pub position: usize,
    pub line: usize,
    pub column: usize,
    pub peeked: Option<Token>,
}

/// Characters that end identifiers, constants and attributes.
pub open spec fn is_special(c: char) -> bool {
    c == '!' || c == '@' || c == '#' || c == '$' || c == '%' || c == '^' || c == '&' || c
        == '*' || c == '(' || c == ')' || c == '-' || c == '_' || c == '+' || c == '=' || c
        == '\\' || c == ':' || c == ';' || c == '"' || c == '\'' || c == '<' || c == '>' || c
        == '?' || c == '/' || c == ',' || c == '.' || c == ' ' || c == '\r' || c == '\n' || c
        == '|'
}

pub open spec fn is_digit(c: char) -> bool {
    '0' <= c && c <= '9'
}

/// Whitespace skipped between tokens.
pub open spec fn is_blank(c: char) -> bool {
    c == ' ' || c == '\t' || c == '\r' || c == '\n'
}

/// What an identifier spelled `s` turns into when it is a keyword.
pub open spec fn keyword_of(s: Seq<char>) -> Option<TokenType> {
    if s =~= seq!['l', 'e', 't'] {
        Some(TokenType::Let)
    } else if s =~= seq!['v', 'a', 'r'] {
        Some(TokenType::Var)
    } else if s =~= seq!['o', 'b', 'j', 'e', 'c', 't'] {
        Some(TokenType::Object)
    } else if s =~= seq!['t', 'r', 'a', 'i', 't'] {
        Some(TokenType::Trait)
    } else if s =~= seq!['i', 'm', 'p', 'l'] {
        Some(TokenType::Impl)
    } else if s =~= seq!['e', 'n', 'u', 'm'] {
        Some(TokenType::Enum)
    } else if s =~= seq!['m', 'e', 'm', 'b', 'e', 'r'] {
        Some(TokenType::Member)
    } else if s =~= seq!['i', 'm', 'p', 'o', 'r', 't'] {
        Some(TokenType::Import)
    } else if s =~= seq!['r', 'e', 't', 'u', 'r', 'n'] {
        Some(TokenType::Return)
    } else if s =~= seq!['s', 'e', 'l', 'f'] {
        Some(TokenType::Self_)
    } else {
        None
    }
}

/// The column reached after reading `s` from column `col`: every newline
/// starts a new column count.
pub open spec fn column_after(s: Seq<char>, col: int) -> int
    decreases s.len(),
{
    if s.len() == 0 {
        col
    } else if s.last() == '\n' {
        1
    } else {
        column_after(s.drop_last(), col) + 1
    }
}

/// The line reached after reading `s` from line `line`.
pub open spec fn line_after(s: Seq<char>, line: int) -> int
    decreases s.len(),
{
    if s.len() == 0 {
        line
    } else if s.last() == '\n' {
        line_after(s.drop_last(), line) + 1
    } else {
        line_after(s.drop_last(), line)
    }
}

/// `s` with every occurrence of `c` removed.
pub open spec fn without(s: Seq<char>, c: char) -> Seq<char>
    decreases s.len(),
{
    if s.len() == 0 {
        s
    } else if s.last() == c {
        without(s.drop_last(), c)
    } else {
        without(s.drop_last(), c).push(s.last())
    }
}

/// `s` with every backslash followed by `quote` replaced by `quote`, scanning
/// from the left.
pub open spec fn unescape(s: Seq<char>, quote: char) -> Seq<char>
    decreases s.len(),
{
    if s.len() == 0 {
        s
    } else if s.len() >= 2 && s[0] == '\\' && s[1] == quote {
        seq![quote] + unescape(s.subrange(2, s.len() as int), quote)
    } else {
        seq![s[0]] + unescape(s.subrange(1, s.len() as int), quote)
    }
}

/// The first index at or after `i` that holds a special character, or the
/// length of `s`.
pub open spec fn special_end(s: Seq<char>, i: int) -> int
    decreases s.len() - i,
{
    if i >= s.len() || i < 0 {
        s.len() as int
    } else if is_special(s[i]) {
        i
    } else {
        special_end(s, i + 1)
    }
}

/// The first index at or after `i` that holds neither a space nor a tab.
pub open spec fn spaces_end(s: Seq<char>, i: int) -> int
    decreases s.len() - i,
{
    if i >= s.len() || i < 0 {
        s.len() as int
    } else if s[i] == ' ' || s[i] == '\t' {
        spaces_end(s, i + 1)
    } else {
        i
    }
}

/// The first index at or after `i` that holds a line break, or the length.
pub open spec fn line_end(s: Seq<char>, i: int) -> int
    decreases s.len() - i,
{
    if i >= s.len() || i < 0 {
        s.len() as int
    } else if s[i] == '\r' || s[i] == '\n' {
        i
    } else {
        line_end(s, i + 1)
    }
}

/// The first index at or after `i` that is not blank.
pub open spec fn first_non_blank(s: Seq<char>, i: int) -> int
    decreases s.len() - i,
{
    if i >= s.len() || i < 0 {
        s.len() as int
    } else if is_blank(s[i]) {
        first_non_blank(s, i + 1)
    } else {
        i
    }
}

/// Scans a number literal from index `i`: the index where it ends and whether
/// it holds a dot, or `None` when a second dot shows up.
pub open spec fn scan_number(s: Seq<char>, i: int, dot: bool) -> Option<(int, bool)>
    decreases s.len() - i,
{
    if i >= s.len() || i < 0 {
        Some((s.len() as int, dot))
    } else if s[i] == '.' {
        if dot {
            None
        } else {
            scan_number(s, i + 1, true)
        }
    } else if is_digit(s[i]) || s[i] == '_' {
        scan_number(s, i + 1, dot)
    } else {
        Some((i, dot))
    }
}

/// The index of the quote that closes a string whose text starts at `i`: the
/// first `quote` not preceded by a backslash, or the length when none does.
pub open spec fn closing_quote(s: Seq<char>, i: int, quote: char) -> int
    decreases s.len() - i,
{
    if i >= s.len() || i < 1 {
        s.len() as int
    } else if s[i] == quote && s[i - 1] != '\\' {
        i
    } else {
        closing_quote(s, i + 1, quote)
    }
}

/// The name of `char::is_lowercase`.
pub uninterp spec fn lowercase_char(c: char) -> bool;

/// The name of `char::is_uppercase`.
pub uninterp spec fn uppercase_char(c: char) -> bool;

/// Relies on `char::is_lowercase`: whether `c` has the Lowercase property.
#[verifier::external_body]
fn char_is_lowercase(c: char) -> (r: bool)
    ensures
        r == lowercase_char(c),
{
    c.is_lowercase()
}

/// Relies on `char::is_uppercase`: whether `c` has the Uppercase property.
#[verifier::external_body]
fn char_is_uppercase(c: char) -> (r: bool)
    ensures
        r == uppercase_char(c),
{
    c.is_uppercase()
}

/// Relies on `String::from_iter`: the string holds the characters in order.
#[verifier::external_body]
fn string_from_chars(chars: Vec<char>) -> (r: String)
    ensures
        r@ == chars@,
{
    String::from_iter(chars)
}

/// Returns true for the characters that end identifiers.
pub fn special(c: char) -> (r: bool)
    ensures
        r == is_special(c),
{
    match c {
        '!' | '@' | '#' | '$' | '%' | '^' | '&' | '*' | '(' | ')' | '-' | '_' | '+' | '='
        | '\\' | ':' | ';' | '"' | '\'' | '<' | '>' | '?' | '/' | ',' | '.' | ' ' | '\r'
        | '\n' | '|' => true,
        _ => false,
    }
}

fn word_is(s: &Vec<char>, w: &[char]) -> (r: bool)
    ensures
        r == (s@ =~= w@),
{
    if s.len() != w.len() {
        return false;
    }
    let mut i: usize = 0;
    while i < s.len()
        invariant
            s@.len() == w@.len(),
            i <= s@.len(),
            s@.subrange(0, i as int) =~= w@.subrange(0, i as int),
        decreases s@.len() - i,
    {
        if s[i] != w[i] {
            assert(s@[i as int] != w@[i as int]);
            return false;
        }
        i = i + 1;
    }
    assert(s@ =~= s@.subrange(0, i as int));
    assert(w@ =~= w@.subrange(0, i as int));
    true
}

/// Looks up the keyword spelled by `s`.
pub fn keyword(s: &Vec<char>) -> (r: Option<TokenType>)
    ensures
        r == keyword_of(s@),
{
    if word_is(s, &['l', 'e', 't']) {
        Some(TokenType::Let)
    } else if word_is(s, &['v', 'a', 'r']) {
        Some(TokenType::Var)
    } else if word_is(s, &['o', 'b', 'j', 'e', 'c', 't']) {
        Some(TokenType::Object)
    } else if word_is(s, &['t', 'r', 'a', 'i', 't']) {
        Some(TokenType::Trait)
    } else if word_is(s, &['i', 'm', 'p', 'l']) {
        Some(TokenType::Impl)
    } else if word_is(s, &['e', 'n', 'u', 'm']) {
        Some(TokenType::Enum)
    } else if word_is(s, &['m', 'e', 'm', 'b', 'e', 'r']) {
        Some(TokenType::Member)
    } else if word_is(s, &['i', 'm', 'p', 'o', 'r', 't']) {
        Some(TokenType::Import)
    } else if word_is(s, &['r', 'e', 't', 'u', 'r', 'n']) {
        Some(TokenType::Return)
    } else if word_is(s, &['s', 'e', 'l', 'f']) {
        Some(TokenType::Self_)
    } else {
        None
    }
}


/// Reading `s` from a column moves the column by at most the length of `s`.
pub proof fn lemma_column_after_bound(s: Seq<char>, col: int)
    requires
        col >= 1,
    ensures
        1 <= column_after(s, col) <= col + s.len(),
    decreases s.len(),
{
    if s.len() > 0 {
        lemma_column_after_bound(s.drop_last(), col);
    }
}

/// Reading `s` from a line moves the line by at most the length of `s`.
pub proof fn lemma_line_after_bound(s: Seq<char>, line: int)
    ensures
        line <= line_after(s, line) <= line + s.len(),
    decreases s.len(),
{
    if s.len() > 0 {
        lemma_line_after_bound(s.drop_last(), line);
    }
}

/// The end of a run of non-special characters lies between its start and the
/// end of the input.
pub proof fn lemma_special_end_bounds(s: Seq<char>, i: int)
    requires
        0 <= i <= s.len(),
    ensures
        i <= special_end(s, i) <= s.len(),
    decreases s.len() - i,
{
    if i < s.len() && !is_special(s[i]) {
        lemma_special_end_bounds(s, i + 1);
    }
}

/// A number literal ends at or after the index where its scan starts.
pub proof fn lemma_scan_number_bound(s: Seq<char>, i: int, dot: bool)
    requires
        0 <= i <= s.len(),
    ensures
        scan_number(s, i, dot) matches Some((j, _)) ==> i <= j <= s.len(),
    decreases s.len() - i,
{
    if i < s.len() {
        if s[i] == '.' && !dot {
            lemma_scan_number_bound(s, i + 1, true);
        } else if is_digit(s[i]) || s[i] == '_' {
            lemma_scan_number_bound(s, i + 1, dot);
        }
    }
}

/// Whether the character `offset` places after the cursor is `c`.
pub open spec fn next_is(l: Lexer, offset: int, c: char) -> bool {
    l.position + offset < l.input@.len() && l.input@[l.position + offset] == c
}

/// `t` is a token of type `ty` holding `value`, placed where `l` stood.
pub open spec fn gives(t: Token, l: Lexer, ty: TokenType, value: Seq<char>) -> bool {
    &&& t.token_type == ty
    &&& t.value@ == value
    &&& t.line == l.line
    &&& t.column == l.column
}

/// `new` is `old` after reading the characters in `start..stop` into a token,
/// with the cursor moved to `pos` and the column moved `extra` further.
pub open spec fn moved(old: Lexer, new: Lexer, start: int, stop: int, pos: int, extra: int) -> bool {
    &&& new.input@ == old.input@
    &&& new.peeked == old.peeked
    &&& new.position == pos
    &&& old.position <= pos
    &&& new.line == line_after(old.input@.subrange(start, stop), old.line as int)
    &&& new.column == column_after(old.input@.subrange(start, stop), old.column as int) + extra
}

/// A token of type `ty` made of the `len` characters at the cursor.
pub open spec fn fixed_step(old: Lexer, new: Lexer, r: Option<Token>, len: int, ty: TokenType) -> bool {
    let p = old.position as int;
    &&& r matches Some(t) && gives(t, old, ty, old.input@.subrange(p, p + len))
    &&& moved(old, new, p, p + len, p + len, 0)
}

/// An operator of `advance` characters, which becomes `assign_ty` when an
/// `=` follows it.
pub open spec fn operator_step(
    old: Lexer,
    new: Lexer,
    r: Option<Token>,
    advance: int,
    ty: TokenType,
    assign_ty: TokenType,
) -> bool {
    if next_is(old, advance, '=') {
        fixed_step(old, new, r, advance + 1, assign_ty)
    } else {
        fixed_step(old, new, r, advance, ty)
    }
}

/// Characters that open a token.
pub open spec fn starts_token(c: char) -> bool {
    c == '@' || c == '#' || is_digit(c) || c == '{' || c == '}' || c == '(' || c == ')' || c
        == '\'' || c == '"' || c == ':' || c == '/' || c == '%' || c == '^' || c == '&' || c
        == '|' || c == '*' || c == '-' || c == '+' || c == '=' || c == '<' || c == '>' || c
        == '[' || c == ']' || c == '!' || lowercase_char(c) || uppercase_char(c)
}

/// The position, line and column reached by passing over the blanks of `s`
/// from position `p` at line `line` and column `col`: a space or a tab moves
/// the column, a line break starts a new line, and `\r\n` counts as one break
/// that leaves the column at 2.
pub open spec fn skip_from(s: Seq<char>, p: int, line: int, col: int) -> (int, int, int)
    decreases s.len() - p,
{
    if p >= s.len() || p < 0 {
        (p, line, col)
    } else if s[p] == '\r' {
        if p + 1 < s.len() && s[p + 1] == '\n' {
            skip_from(s, p + 2, line + 1, 2)
        } else {
            skip_from(s, p + 1, line + 1, 1)
        }
    } else if s[p] == '\n' {
        skip_from(s, p + 1, line + 1, 1)
    } else if s[p] == ' ' || s[p] == '\t' {
        skip_from(s, p + 1, line, col + 1)
    } else {
        (p, line, col)
    }
}

/// `l` moved past the blanks at its cursor.
pub open spec fn skip_blanks(l: Lexer) -> Lexer {
    let (p, line, col) = skip_from(l.input@, l.position as int, l.line as int, l.column as int);
    Lexer { position: p as usize, line: line as usize, column: col as usize, ..l }
}

/// What reading one token does from a cursor that is not on a blank: the
/// character there picks the token.
pub open spec fn dispatch(at: Lexer, new: Lexer, r: Option<Token>) -> bool {
    let s = at.input@;
    let q = at.position as int;
    if q >= s.len() {
        r is None && new == at
    } else {
        let c = s[q];
        if c == '@' {
            attribute_step(at, new, r)
        } else if c == '#' {
            comment_step(at, new, r)
        } else if c == '{' {
            fixed_step(at, new, r, 1, TokenType::CurlyOpen)
        } else if c == '}' {
            fixed_step(at, new, r, 1, TokenType::CurlyClose)
        } else if c == '(' {
            fixed_step(at, new, r, 1, TokenType::ParenOpen)
        } else if c == ')' {
            fixed_step(at, new, r, 1, TokenType::ParenClose)
        } else if c == '\'' {
            string_step(at, new, r, '\'')
        } else if c == '"' {
            string_step(at, new, r, '"')
        } else if c == ':' {
            if next_is(at, 1, ':') {
                fixed_step(at, new, r, 2, TokenType::ColonColon)
            } else {
                fixed_step(at, new, r, 1, TokenType::Colon)
            }
        } else if c == '/' {
            operator_step(at, new, r, 1, TokenType::Div, TokenType::DivAssign)
        } else if c == '%' {
            operator_step(at, new, r, 1, TokenType::Modulo, TokenType::ModuloAssign)
        } else if c == '^' {
            operator_step(at, new, r, 1, TokenType::BitwiseXor, TokenType::BitwiseXorAssign)
        } else if c == '&' {
            if next_is(at, 1, '&') {
                operator_step(at, new, r, 2, TokenType::And, TokenType::AndAssign)
            } else {
                operator_step(at, new, r, 1, TokenType::BitwiseAnd, TokenType::BitwiseAndAssign)
            }
        } else if c == '|' {
            if next_is(at, 1, '|') {
                operator_step(at, new, r, 2, TokenType::Or, TokenType::OrAssign)
            } else {
                operator_step(at, new, r, 1, TokenType::BitwiseOr, TokenType::BitwiseOrAssign)
            }
        } else if c == '*' {
            if next_is(at, 1, '*') {
                operator_step(at, new, r, 2, TokenType::Pow, TokenType::PowAssign)
            } else {
                operator_step(at, new, r, 1, TokenType::Mul, TokenType::MulAssign)
            }
        } else if c == '-' {
            if next_is(at, 1, '>') {
                fixed_step(at, new, r, 2, TokenType::Arrow)
            } else {
                operator_step(at, new, r, 1, TokenType::Sub, TokenType::SubAssign)
            }
        } else if c == '+' {
            operator_step(at, new, r, 1, TokenType::Add, TokenType::AddAssign)
        } else if c == '=' {
            operator_step(at, new, r, 1, TokenType::Assign, TokenType::Equal)
        } else if c == '<' {
            if next_is(at, 1, '<') {
                fixed_step(at, new, r, 2, TokenType::ShiftLeft)
            } else {
                fixed_step(at, new, r, 1, TokenType::Lower)
            }
        } else if c == '>' {
            if next_is(at, 1, '>') {
                fixed_step(at, new, r, 2, TokenType::ShiftRight)
            } else {
                fixed_step(at, new, r, 1, TokenType::Greater)
            }
        } else if c == '[' {
            fixed_step(at, new, r, 1, TokenType::BracketOpen)
        } else if c == ']' {
            fixed_step(at, new, r, 1, TokenType::BracketClose)
        } else if c == '!' {
            operator_step(at, new, r, 1, TokenType::Not, TokenType::NotEqual)
        } else if is_digit(c) {
            number_step(at, new, r)
        } else if is_special(c) {
            r is None && new == at
        } else if lowercase_char(c) {
            identifier_step(at, new, r)
        } else if uppercase_char(c) {
            constant_step(at, new, r)
        } else {
            r is None && new == at
        }
    }
}

/// What reading one token from the input does: blanks are passed over, then
/// the character reached picks the token. A token is returned only from a
/// character that opens one, and only after the cursor moved.
pub open spec fn raw_step(old: Lexer, new: Lexer, r: Option<Token>) -> bool {
    let s = old.input@;
    let q = first_non_blank(s, old.position as int);
    &&& dispatch(skip_blanks(old), new, r)
    &&& new.input@ == s
    &&& old.position <= new.position
    &&& (q == s.len() || !starts_token(s[q])) ==> r is None
    &&& r is Some ==> q < s.len() && starts_token(s[q]) && old.position < new.position
}

/// What `next` does: hand out the peeked token if there is one, else read one.
pub open spec fn next_step(old: Lexer, new: Lexer, r: Option<Token>) -> bool {
    match old.peeked {
        Some(t) => {
            &&& r == Some(t)
            &&& new.peeked is None
            &&& new.input@ == old.input@
            &&& new.position == old.position
            &&& new.line == old.line
            &&& new.column == old.column
        },
        None => raw_step(old, new, r) && new.peeked is None,
    }
}

/// What `peek` does: keep the peeked token if there is one, else read one and
/// keep it.
pub open spec fn peek_step(old: Lexer, new: Lexer) -> bool {
    match old.peeked {
        Some(t) => {
            &&& new.peeked == old.peeked
            &&& new.input@ == old.input@
            &&& new.position == old.position
            &&& new.line == old.line
            &&& new.column == old.column
        },
        None => raw_step(old, Lexer { peeked: None, ..new }, new.peeked),
    }
}

/// An identifier, or the keyword it spells, read at the cursor; nothing at
/// the end of the input.
pub open spec fn identifier_step(old: Lexer, new: Lexer, r: Option<Token>) -> bool {
    let p = old.position as int;
    let stop = special_end(old.input@, p);
    let word = old.input@.subrange(p, stop);
    let ty = match keyword_of(word) {
        Some(k) => k,
        None => TokenType::Identifier,
    };
    if p == old.input@.len() {
        r is None && moved(old, new, p, p, p, 0)
    } else {
        &&& r matches Some(t) && gives(t, old, ty, word)
        &&& moved(old, new, p, stop, stop, 0)
    }
}

/// A constant read at the cursor; nothing at the end of the input.
pub open spec fn constant_step(old: Lexer, new: Lexer, r: Option<Token>) -> bool {
    let p = old.position as int;
    let stop = special_end(old.input@, p);
    if p == old.input@.len() {
        r is None && moved(old, new, p, p, p, 0)
    } else {
        &&& r matches Some(t) && gives(
            t,
            old,
            TokenType::Constant,
            old.input@.subrange(p, stop),
        )
        &&& moved(old, new, p, stop, stop, 0)
    }
}

/// An attribute read past the `@` at the cursor; nothing when the input ends
/// right after the `@`.
pub open spec fn attribute_step(old: Lexer, new: Lexer, r: Option<Token>) -> bool {
    let p = old.position as int + 1;
    let stop = special_end(old.input@, p);
    if p == old.input@.len() {
        r is None && new.position == p && new.input@ == old.input@
            && new.peeked == old.peeked && new.line
            == old.line && new.column == old.column
    } else {
        &&& r matches Some(t) && gives(
            t,
            old,
            TokenType::Attribute,
            old.input@.subrange(p, stop),
        )
        &&& moved(old, new, p, stop, stop, 1)
    }
}

/// A comment: the `#` at the cursor, the spaces after it, and the rest of
/// the line as the token's text.
pub open spec fn comment_step(old: Lexer, new: Lexer, r: Option<Token>) -> bool {
    let s = old.input@;
    let start = spaces_end(s, old.position + 1);
    let stop = line_end(s, start);
    &&& r matches Some(t) && gives(t, old, TokenType::Comment, s.subrange(start, stop))
    &&& moved(old, new, start, stop, stop, 1)
}

/// An integer or a float read at the cursor, without its underscores;
/// nothing, and no move, when a second dot shows up.
pub open spec fn number_step(old: Lexer, new: Lexer, r: Option<Token>) -> bool {
    let s = old.input@;
    let p = old.position as int;
    match scan_number(s, p, false) {
        None => r is None && moved(old, new, p, p, p, 0),
        Some((stop, dot)) => {
            &&& r matches Some(t) && gives(
                t,
                old,
                if dot {
                    TokenType::Float
                } else {
                    TokenType::Integer
                },
                without(s.subrange(p, stop), '_'),
            )
            &&& moved(old, new, p, stop, stop, 0)
        },
    }
}

/// A string opened by the quote at the cursor, up to the first `quote` not
/// preceded by a backslash, with escaped quotes unescaped.
pub open spec fn string_step(old: Lexer, new: Lexer, r: Option<Token>, quote: char) -> bool {
    let s = old.input@;
    let start = old.position + 1;
    let close = closing_quote(s, start, quote);
    let stop = if close < s.len() {
        close
    } else if start < s.len() {
        s.len() - 1
    } else {
        start
    };
    let pos = if close < s.len() {
        close + 1
    } else {
        s.len() as int
    };
    &&& r matches Some(t) && gives(
        t,
        old,
        TokenType::String,
        unescape(s.subrange(start, stop), quote),
    )
    &&& moved(old, new, start, stop, pos, 2)
}

impl Lexer {
    /// Falls with every token handed out, and never grows.
    pub open spec fn measure(&self) -> int {
        2 * (self.input@.len() - self.position) + if self.peeked is Some {
            1int
        } else {
            0int
        }
    }

    /// The cursor lies within the input and the counters fit their types.
    pub open spec fn wf(&self) -> bool {
        &&& self.input@.len() <= MAX_INPUT_LEN
        &&& self.position <= self.input@.len()
        &&& 1 <= self.line <= self.position + 1
        &&& 1 <= self.column <= 3 * self.position + 1
    }

    pub fn new(input: Vec<char>) -> (r: Self)
        requires
            input@.len() <= MAX_INPUT_LEN,
        ensures
            r.wf(),
            r.input@ == input@,
            r.position == 0,
            r.line == 1,
            r.column == 1,
            r.peeked is None,
    {
        Lexer { input: input, position: 0, line: 1, column: 1, peeked: None }
    }

    pub fn advance_one(&mut self)
        requires
            old(self).wf(),
            old(self).position < old(self).input@.len(),
        ensures
            final(self).wf(),
            final(self).input == old(self).input,
            final(self).peeked == old(self).peeked,
            final(self).position == old(self).position + 1,
            final(self).line == old(self).line,
            final(self).column == old(self).column + 1,
    {
        self.position = self.position + 1;
        self.column = self.column + 1;
    }

    pub fn advance_line(&mut self)
        requires
            old(self).wf(),
            old(self).position < old(self).input@.len(),
        ensures
            final(self).wf(),
            final(self).input == old(self).input,
            final(self).peeked == old(self).peeked,
            final(self).position == old(self).position + 1,
            final(self).line == old(self).line + 1,
            final(self).column == 1,
    {
        self.position = self.position + 1;
        self.line = self.line + 1;
        self.column = 1;
    }

    pub fn advance_column(&mut self, amount: usize)
        requires
            old(self).column + amount <= usize::MAX,
        ensures
            final(self).input@ == old(self).input@,
            final(self).peeked == old(self).peeked,
            final(self).position == old(self).position,
            final(self).line == old(self).line,
            final(self).column == old(self).column + amount,
    {
        self.column = self.column + amount;
    }

    /// Moves the line and column past the characters of a token read from
    /// `start..stop`; a newline inside the token starts a new line.
    pub fn advance_column_from_token(&mut self, start: usize, stop: usize)
        requires
            start <= stop <= old(self).input@.len(),
            old(self).input@.len() <= MAX_INPUT_LEN,
            1 <= old(self).column <= 3 * MAX_INPUT_LEN + 1,
            old(self).line <= MAX_INPUT_LEN + 1,
        ensures
            final(self).input@ == old(self).input@,
            final(self).peeked == old(self).peeked,
            final(self).position == old(self).position,
            final(self).line == line_after(
                old(self).input@.subrange(start as int, stop as int),
                old(self).line as int,
            ),
            final(self).column == column_after(
                old(self).input@.subrange(start as int, stop as int),
                old(self).column as int,
            ),
            old(self).line <= final(self).line <= old(self).line + (stop - start),
            1 <= final(self).column <= old(self).column + (stop - start),
    {
        let ghost s = self.input@;
        let ghost line0 = self.line as int;
        let ghost col0 = self.column as int;
        let mut i = start;
        while i < stop
            invariant
                start <= i <= stop,
                stop <= s.len(),
                s.len() <= MAX_INPUT_LEN,
                self.input@ == s,
                self.peeked == old(self).peeked,
                self.position == old(self).position,
                1 <= col0 <= 3 * MAX_INPUT_LEN + 1,
                line0 <= MAX_INPUT_LEN + 1,
                self.line == line_after(s.subrange(start as int, i as int), line0),
                self.column == column_after(s.subrange(start as int, i as int), col0),
            decreases stop - i,
        {
            proof {
                lemma_line_after_bound(s.subrange(start as int, i as int), line0);
                lemma_column_after_bound(s.subrange(start as int, i as int), col0);
                assert(s.subrange(start as int, i + 1).drop_last() =~= s.subrange(
                    start as int,
                    i as int,
                ));
            }
            if self.input[i] == '\n' {
                self.line = self.line + 1;
                self.column = 1;
            } else {
                self.column = self.column + 1;
            }
            i = i + 1;
        }
        proof {
            lemma_line_after_bound(s.subrange(start as int, stop as int), line0);
            lemma_column_after_bound(s.subrange(start as int, stop as int), col0);
        }
    }

    /// The characters of `start..stop` as a string.
    pub fn slice(&self, start: usize, stop: usize) -> (r: String)
        requires
            start <= stop <= self.input@.len(),
        ensures
            r@ == self.input@.subrange(start as int, stop as int),
    {
        let mut chars: Vec<char> = Vec::new();
        let mut i = start;
        while i < stop
            invariant
                start <= i <= stop <= self.input@.len(),
                chars@ == self.input@.subrange(start as int, i as int),
            decreases stop - i,
        {
            chars.push(self.input[i]);
            i = i + 1;
            assert(chars@ =~= self.input@.subrange(start as int, i as int));
        }
        string_from_chars(chars)
    }

    /// Makes a token of the characters in `start..stop` at the current line
    /// and column, and moves the column past it.
    pub fn token(&mut self, token_type: TokenType, start: usize, stop: usize) -> (t: Token)
        requires
            start <= stop <= old(self).input@.len(),
            old(self).input@.len() <= MAX_INPUT_LEN,
            1 <= old(self).column <= 3 * MAX_INPUT_LEN + 1,
            old(self).line <= MAX_INPUT_LEN + 1,
        ensures
            gives(
                t,
                *old(self),
                token_type,
                old(self).input@.subrange(start as int, stop as int),
            ),
            moved(*old(self), *final(self), start as int, stop as int, old(self).position as int, 0),
            old(self).line <= final(self).line <= old(self).line + (stop - start),
            1 <= final(self).column <= old(self).column + (stop - start),
    {
        let value = self.slice(start, stop);
        let token = Token { token_type: token_type, value: value, line: self.line, column: self.column };
        self.advance_column_from_token(start, stop);
        token
    }

    fn fixed(&mut self, len: usize, token_type: TokenType) -> (r: Option<Token>)
        requires
            old(self).wf(),
            1 <= len <= 3,
            old(self).position + len <= old(self).input@.len(),
        ensures
            final(self).wf(),
            fixed_step(*old(self), *final(self), r, len as int, token_type),
    {
        let start = self.position;
        let token = self.token(token_type, start, start + len);
        self.position = start + len;
        Some(token)
    }

    pub fn operator(&mut self, advance: usize, token_type: TokenType, assign_type: TokenType) -> (r:
        Option<Token>)
        requires
            old(self).wf(),
            1 <= advance <= 2,
            old(self).position + advance <= old(self).input@.len(),
        ensures
            final(self).wf(),
            operator_step(*old(self), *final(self), r, advance as int, token_type, assign_type),
    {
        let position = self.position + advance;
        if position < self.input.len() && self.input[position] == '=' {
            self.fixed(advance + 1, assign_type)
        } else {
            self.fixed(advance, token_type)
        }
    }

    pub fn curly_open(&mut self) -> (r: Option<Token>)
        requires
            old(self).wf(),
            old(self).position < old(self).input@.len(),
        ensures
            final(self).wf(),
            fixed_step(*old(self), *final(self), r, 1, TokenType::CurlyOpen),
    {
        self.fixed(1, TokenType::CurlyOpen)
    }

    pub fn curly_close(&mut self) -> (r: Option<Token>)
        requires
            old(self).wf(),
            old(self).position < old(self).input@.len(),
        ensures
            final(self).wf(),
            fixed_step(*old(self), *final(self), r, 1, TokenType::CurlyClose),
    {
        self.fixed(1, TokenType::CurlyClose)
    }

    pub fn paren_open(&mut self) -> (r: Option<Token>)
        requires
            old(self).wf(),
            old(self).position < old(self).input@.len(),
        ensures
            final(self).wf(),
            fixed_step(*old(self), *final(self), r, 1, TokenType::ParenOpen),
    {
        self.fixed(1, TokenType::ParenOpen)
    }

    pub fn paren_close(&mut self) -> (r: Option<Token>)
        requires
            old(self).wf(),
            old(self).position < old(self).input@.len(),
        ensures
            final(self).wf(),
            fixed_step(*old(self), *final(self), r, 1, TokenType::ParenClose),
    {
        self.fixed(1, TokenType::ParenClose)
    }

    pub fn bracket_open(&mut self) -> (r: Option<Token>)
        requires
            old(self).wf(),
            old(self).position < old(self).input@.len(),
        ensures
            final(self).wf(),
            fixed_step(*old(self), *final(self), r, 1, TokenType::BracketOpen),
    {
        self.fixed(1, TokenType::BracketOpen)
    }

    pub fn bracket_close(&mut self) -> (r: Option<Token>)
        requires
            old(self).wf(),
            old(self).position < old(self).input@.len(),
        ensures
            final(self).wf(),
            fixed_step(*old(self), *final(self), r, 1, TokenType::BracketClose),
    {
        self.fixed(1, TokenType::BracketClose)
    }

    pub fn colons(&mut self) -> (r: Option<Token>)
        requires
            old(self).wf(),
            old(self).position < old(self).input@.len(),
        ensures
            final(self).wf(),
            next_is(*old(self), 1, ':') ==> fixed_step(*old(self), *final(self), r, 2, TokenType::ColonColon),
            !next_is(*old(self), 1, ':') ==> fixed_step(*old(self), *final(self), r, 1, TokenType::Colon),
    {
        let position = self.position + 1;
        if position < self.input.len() && self.input[position] == ':' {
            self.fixed(2, TokenType::ColonColon)
        } else {
            self.fixed(1, TokenType::Colon)
        }
    }
    pub fn div(&mut self) -> (r: Option<Token>)
        requires
            old(self).wf(),
            old(self).position < old(self).input@.len(),
        ensures
            final(self).wf(),
            operator_step(*old(self), *final(self), r, 1, TokenType::Div, TokenType::DivAssign),
    {
        self.operator(1, TokenType::Div, TokenType::DivAssign)
    }

    pub fn modulo(&mut self) -> (r: Option<Token>)
        requires
            old(self).wf(),
            old(self).position < old(self).input@.len(),
        ensures
            final(self).wf(),
            operator_step(*old(self), *final(self), r, 1, TokenType::Modulo, TokenType::ModuloAssign),
    {
        self.operator(1, TokenType::Modulo, TokenType::ModuloAssign)
    }

    pub fn bitwise_xor(&mut self) -> (r: Option<Token>)
        requires
            old(self).wf(),
            old(self).position < old(self).input@.len(),
        ensures
            final(self).wf(),
            operator_step(*old(self), *final(self), r, 1, TokenType::BitwiseXor, TokenType::BitwiseXorAssign),
    {
        self.operator(1, TokenType::BitwiseXor, TokenType::BitwiseXorAssign)
    }

    pub fn bitwise_and_or_boolean_and(&mut self) -> (r: Option<Token>)
        requires
            old(self).wf(),
            old(self).position < old(self).input@.len(),
        ensures
            final(self).wf(),
            next_is(*old(self), 1, '&') ==> operator_step(
                *old(self),
                *final(self),
                r,
                2,
                TokenType::And,
                TokenType::AndAssign,
            ),
            !next_is(*old(self), 1, '&') ==> operator_step(
                *old(self),
                *final(self),
                r,
                1,
                TokenType::BitwiseAnd,
                TokenType::BitwiseAndAssign,
            ),
    {
        let next = self.position + 1;
        if next < self.input.len() && self.input[next] == '&' {
            self.operator(2, TokenType::And, TokenType::AndAssign)
        } else {
            self.operator(1, TokenType::BitwiseAnd, TokenType::BitwiseAndAssign)
        }
    }

    pub fn bitwise_or_or_boolean_or(&mut self) -> (r: Option<Token>)
        requires
            old(self).wf(),
            old(self).position < old(self).input@.len(),
        ensures
            final(self).wf(),
            next_is(*old(self), 1, '|') ==> operator_step(
                *old(self),
                *final(self),
                r,
                2,
                TokenType::Or,
                TokenType::OrAssign,
            ),
            !next_is(*old(self), 1, '|') ==> operator_step(
                *old(self),
                *final(self),
                r,
                1,
                TokenType::BitwiseOr,
                TokenType::BitwiseOrAssign,
            ),
    {
        let next = self.position + 1;
        if next < self.input.len() && self.input[next] == '|' {
            self.operator(2, TokenType::Or, TokenType::OrAssign)
        } else {
            self.operator(1, TokenType::BitwiseOr, TokenType::BitwiseOrAssign)
        }
    }

    pub fn mul_or_pow(&mut self) -> (r: Option<Token>)
        requires
            old(self).wf(),
            old(self).position < old(self).input@.len(),
        ensures
            final(self).wf(),
            next_is(*old(self), 1, '*') ==> operator_step(
                *old(self),
                *final(self),
                r,
                2,
                TokenType::Pow,
                TokenType::PowAssign,
            ),
            !next_is(*old(self), 1, '*') ==> operator_step(
                *old(self),
                *final(self),
                r,
                1,
                TokenType::Mul,
                TokenType::MulAssign,
            ),
    {
        let next = self.position + 1;
        if next < self.input.len() && self.input[next] == '*' {
            self.operator(2, TokenType::Pow, TokenType::PowAssign)
        } else {
            self.operator(1, TokenType::Mul, TokenType::MulAssign)
        }
    }

    pub fn add(&mut self) -> (r: Option<Token>)
        requires
            old(self).wf(),
            old(self).position < old(self).input@.len(),
        ensures
            final(self).wf(),
            operator_step(*old(self), *final(self), r, 1, TokenType::Add, TokenType::AddAssign),
    {
        self.operator(1, TokenType::Add, TokenType::AddAssign)
    }

    pub fn assign_or_equal(&mut self) -> (r: Option<Token>)
        requires
            old(self).wf(),
            old(self).position < old(self).input@.len(),
        ensures
            final(self).wf(),
            operator_step(*old(self), *final(self), r, 1, TokenType::Assign, TokenType::Equal),
    {
        self.operator(1, TokenType::Assign, TokenType::Equal)
    }

    pub fn not_or_not_equal(&mut self) -> (r: Option<Token>)
        requires
            old(self).wf(),
            old(self).position < old(self).input@.len(),
        ensures
            final(self).wf(),
            operator_step(*old(self), *final(self), r, 1, TokenType::Not, TokenType::NotEqual),
    {
        self.operator(1, TokenType::Not, TokenType::NotEqual)
    }

    pub fn lower_or_shift_left(&mut self) -> (r: Option<Token>)
        requires
            old(self).wf(),
            old(self).position < old(self).input@.len(),
        ensures
            final(self).wf(),
            next_is(*old(self), 1, '<') ==> fixed_step(*old(self), *final(self), r, 2, TokenType::ShiftLeft),
            !next_is(*old(self), 1, '<') ==> fixed_step(*old(self), *final(self), r, 1, TokenType::Lower),
    {
        let next = self.position + 1;
        if next < self.input.len() && self.input[next] == '<' {
            self.fixed(2, TokenType::ShiftLeft)
        } else {
            self.fixed(1, TokenType::Lower)
        }
    }

    pub fn greater_or_shift_right(&mut self) -> (r: Option<Token>)
        requires
            old(self).wf(),
            old(self).position < old(self).input@.len(),
        ensures
            final(self).wf(),
            next_is(*old(self), 1, '>') ==> fixed_step(*old(self), *final(self), r, 2, TokenType::ShiftRight),
            !next_is(*old(self), 1, '>') ==> fixed_step(*old(self), *final(self), r, 1, TokenType::Greater),
    {
        let next = self.position + 1;
        if next < self.input.len() && self.input[next] == '>' {
            self.fixed(2, TokenType::ShiftRight)
        } else {
            self.fixed(1, TokenType::Greater)
        }
    }

    fn arrow(&mut self) -> (r: Option<Token>)
        requires
            old(self).wf(),
            next_is(*old(self), 1, '>'),
        ensures
            final(self).wf(),
            fixed_step(*old(self), *final(self), r, 2, TokenType::Arrow),
    {
        self.fixed(2, TokenType::Arrow)
    }

    pub fn sub_or_arrow(&mut self) -> (r: Option<Token>)
        requires
            old(self).wf(),
            old(self).position < old(self).input@.len(),
        ensures
            final(self).wf(),
            next_is(*old(self), 1, '>') ==> fixed_step(*old(self), *final(self), r, 2, TokenType::Arrow),
            !next_is(*old(self), 1, '>') ==> operator_step(
                *old(self),
                *final(self),
                r,
                1,
                TokenType::Sub,
                TokenType::SubAssign,
            ),
    {
        let next = self.position + 1;
        if next < self.input.len() && self.input[next] == '>' {
            self.arrow()
        } else {
            self.operator(1, TokenType::Sub, TokenType::SubAssign)
        }
    }

    /// Moves the cursor to the next special character. Returns the range
    /// passed over, or `None` when the input ended before any character.
    pub fn advance_until_special(&mut self) -> (r: Option<(usize, usize)>)
        requires
            old(self).wf(),
        ensures
            final(self).wf(),
            final(self).input@ == old(self).input@,
            final(self).peeked == old(self).peeked,
            final(self).line == old(self).line,
            final(self).column == old(self).column,
            final(self).position == special_end(old(self).input@, old(self).position as int),
            old(self).position <= final(self).position <= old(self).input@.len(),
            r is None <==> old(self).position == old(self).input@.len(),
            r matches Some((a, b)) ==> a == old(self).position && b == final(self).position,
    {
        let start = self.position;
        let mut position = self.position;
        while position < self.input.len()
            invariant
                start <= position <= self.input@.len(),
                special_end(self.input@, start as int) == special_end(self.input@, position as int),
            ensures
                start <= position <= self.input@.len(),
                special_end(self.input@, start as int) == position,
            decreases self.input@.len() - position,
        {
            if special(self.input[position]) {
                assert(special_end(self.input@, position as int) == position);
                break;
            }
            position = position + 1;
        }
        proof {
            lemma_special_end_bounds(self.input@, start as int);
        }
        if position == self.input.len() && position == start {
            return None;
        }
        self.position = position;
        Some((start, position))
    }

    pub fn identifier_or_keyword(&mut self) -> (r: Option<Token>)
        requires
            old(self).wf(),
        ensures
            final(self).wf(),
            identifier_step(*old(self), *final(self), r),
    {
        match self.advance_until_special() {
            Some((start, stop)) => {
                let word = self.word(start, stop);
                self.position = start;
                let mut token = self.token(TokenType::Identifier, start, stop);
                self.position = stop;
                if let Some(token_type) = keyword(&word) {
                    token.token_type = token_type;
                }
                Some(token)
            },
            None => None,
        }
    }

    fn word(&self, start: usize, stop: usize) -> (r: Vec<char>)
        requires
            start <= stop <= self.input@.len(),
        ensures
            r@ == self.input@.subrange(start as int, stop as int),
    {
        let mut chars: Vec<char> = Vec::new();
        let mut i = start;
        while i < stop
            invariant
                start <= i <= stop <= self.input@.len(),
                chars@ == self.input@.subrange(start as int, i as int),
            decreases stop - i,
        {
            chars.push(self.input[i]);
            i = i + 1;
            assert(chars@ =~= self.input@.subrange(start as int, i as int));
        }
        chars
    }

    pub fn constant(&mut self) -> (r: Option<Token>)
        requires
            old(self).wf(),
        ensures
            final(self).wf(),
            constant_step(*old(self), *final(self), r),
    {
        match self.advance_until_special() {
            Some((start, stop)) => {
                self.position = start;
                let token = self.token(TokenType::Constant, start, stop);
                self.position = stop;
                Some(token)
            },
            None => None,
        }
    }

    /// Reads an attribute: the `@` at the cursor and the name after it.
    pub fn attribute(&mut self) -> (r: Option<Token>)
        requires
            old(self).wf(),
            old(self).position < old(self).input@.len(),
        ensures
            final(self).wf(),
            attribute_step(*old(self), *final(self), r),
    {
        self.position = self.position + 1;
        match self.advance_until_special() {
            Some((start, stop)) => {
                let token = self.token(TokenType::Attribute, start, stop);
                self.advance_column(1);
                Some(token)
            },
            None => None,
        }
    }
    /// Reads a comment: the `#` at the cursor, the spaces after it, and the
    /// rest of the line as the token's text.
    pub fn comment(&mut self) -> (r: Option<Token>)
        requires
            old(self).wf(),
            old(self).position < old(self).input@.len(),
        ensures
            final(self).wf(),
            old(self).position < final(self).position,
            comment_step(*old(self), *final(self), r),
    {
        let ghost s = self.input@;
        let first = self.position + 1;
        let mut start = first;
        while start < self.input.len() && (self.input[start] == ' ' || self.input[start] == '\t')
            invariant
                first <= start <= s.len(),
                self.input@ == s,
                spaces_end(s, first as int) == spaces_end(s, start as int),
            decreases s.len() - start,
        {
            start = start + 1;
        }
        let mut position = start;
        while position < self.input.len() && self.input[position] != '\r' && self.input[position]
            != '\n'
            invariant
                start <= position <= s.len(),
                self.input@ == s,
                line_end(s, start as int) == line_end(s, position as int),
            decreases s.len() - position,
        {
            position = position + 1;
        }
        let token = self.token(TokenType::Comment, start, position);
        self.advance_column(1);
        self.position = position;
        Some(token)
    }

    /// Reads an integer or a float; underscores in it are dropped. Returns
    /// `None`, and moves nothing, when the number holds a second dot.
    pub fn number(&mut self) -> (r: Option<Token>)
        requires
            old(self).wf(),
        ensures
            final(self).wf(),
            number_step(*old(self), *final(self), r),
    {
        let ghost s = self.input@;
        let start = self.position;
        let mut position = start;
        let mut dot = false;
        let mut digits: Vec<char> = Vec::new();
        while position < self.input.len()
            invariant_except_break
                scan_number(s, start as int, false) == scan_number(s, position as int, dot),
            invariant
                start <= position <= s.len(),
                self.input@ == s,
                moved(*old(self), *self, start as int, start as int, start as int, 0),
                self.wf(),
                digits@ == without(s.subrange(start as int, position as int), '_'),
            ensures
                scan_number(s, start as int, false) == Some((position as int, dot)),
            decreases s.len() - position,
        {
            let c = self.input[position];
            assert(s.subrange(start as int, position + 1).drop_last() =~= s.subrange(
                start as int,
                position as int,
            ));
            if c == '.' {
                if dot {
                    return None;
                }
                dot = true;
                digits.push(c);
            } else if ('0' <= c && c <= '9') || c == '_' {
                if c != '_' {
                    digits.push(c);
                }
            } else {
                break;
            }
            position = position + 1;
        }
        let mut token = if dot {
            self.token(TokenType::Float, start, position)
        } else {
            self.token(TokenType::Integer, start, position)
        };
        token.value = string_from_chars(digits);
        self.position = position;
        Some(token)
    }

    /// Reads a string opened by the quote at the cursor. A quote preceded by
    /// a backslash does not close it, and loses the backslash.
    pub fn string_with_quote(&mut self, quote: char) -> (r: Option<Token>)
        requires
            old(self).wf(),
            old(self).position < old(self).input@.len(),
        ensures
            final(self).wf(),
            old(self).position < final(self).position,
            string_step(*old(self), *final(self), r, quote),
    {
        let ghost s = self.input@;
        let start = self.position + 1;
        let mut close = start;
        while close < self.input.len()
            invariant
                1 <= start <= close <= s.len(),
                self.input@ == s,
                closing_quote(s, start as int, quote) == closing_quote(s, close as int, quote),
            ensures
                start <= close <= s.len(),
                closing_quote(s, start as int, quote) == close,
            decreases s.len() - close,
        {
            if self.input[close] == quote && self.input[close - 1] != '\\' {
                break;
            }
            close = close + 1;
        }
        let len = self.input.len();
        let (stop, position) = if close < len {
            (close, close + 1)
        } else if start < len {
            (len - 1, len)
        } else {
            (start, len)
        };
        let mut text: Vec<char> = Vec::new();
        let mut i = start;
        while i < stop
            invariant
                start <= i <= stop <= s.len(),
                self.input@ == s,
                text@ + unescape(s.subrange(i as int, stop as int), quote) == unescape(
                    s.subrange(start as int, stop as int),
                    quote,
                ),
            decreases stop - i,
        {
            let ghost rest = s.subrange(i as int, stop as int);
            if i + 1 < stop && self.input[i] == '\\' && self.input[i + 1] == quote {
                assert(rest.subrange(2, rest.len() as int) =~= s.subrange(i + 2, stop as int));
                text.push(quote);
                i = i + 2;
            } else {
                assert(rest.subrange(1, rest.len() as int) =~= s.subrange(i + 1, stop as int));
                text.push(self.input[i]);
                i = i + 1;
            }
        }
        assert(text@ =~= unescape(s.subrange(start as int, stop as int), quote));
        let mut token = self.token(TokenType::String, start, stop);
        token.value = string_from_chars(text);
        self.advance_column(2);
        self.position = position;
        Some(token)
    }

    pub fn single_string(&mut self) -> (r: Option<Token>)
        requires
            old(self).wf(),
            old(self).position < old(self).input@.len(),
        ensures
            final(self).wf(),
            old(self).position < final(self).position,
            string_step(*old(self), *final(self), r, '\''),
    {
        self.string_with_quote('\'')
    }

    pub fn double_string(&mut self) -> (r: Option<Token>)
        requires
            old(self).wf(),
            old(self).position < old(self).input@.len(),
        ensures
            final(self).wf(),
            old(self).position < final(self).position,
            string_step(*old(self), *final(self), r, '"'),
    {
        self.string_with_quote('"')
    }
    /// Reads the next token from the input, passing over blanks.
    pub fn next_raw(&mut self) -> (r: Option<Token>)
        requires
            old(self).wf(),
        ensures
            final(self).wf(),
            final(self).peeked == old(self).peeked,
            raw_step(*old(self), *final(self), r),
    {
        let ghost s = self.input@;
        let ghost q = first_non_blank(s, old(self).position as int);
        loop
            invariant
                self.wf(),
                self.input@ == s,
                s == old(self).input@,
                q == first_non_blank(s, old(self).position as int),
                self.peeked == old(self).peeked,
                old(self).position <= self.position,
                first_non_blank(s, self.position as int) == q,
                self.input == old(self).input,
                skip_blanks(*self) == skip_blanks(*old(self)),
            decreases s.len() - self.position,
        {
            if self.position >= self.input.len() {
                assert(q == s.len());
                return None;
            }
            let c = self.input[self.position];
            let ghost here = self.position as int;
            if c == '\r' {
                assert(first_non_blank(s, here) == first_non_blank(s, here + 1));
                self.advance_line();
                if self.position < self.input.len() && self.input[self.position] == '\n' {
                    assert(first_non_blank(s, here + 1) == first_non_blank(s, here + 2));
                    self.advance_one();
                }
            } else if c == '\n' {
                self.advance_line();
            } else if c == ' ' || c == '\t' {
                self.advance_one();
            } else {
                assert(q == self.position);
                return match c {
                    '@' => {
                        proof {
                            if q + 1 < s.len() {
                                lemma_special_end_bounds(s, q + 1);
                            }
                        }
                        self.attribute()
                    },
                    '#' => self.comment(),
                    '{' => self.curly_open(),
                    '}' => self.curly_close(),
                    '(' => self.paren_open(),
                    ')' => self.paren_close(),
                    '\'' => self.single_string(),
                    '"' => self.double_string(),
                    ':' => self.colons(),
                    '/' => self.div(),
                    '%' => self.modulo(),
                    '^' => self.bitwise_xor(),
                    '&' => self.bitwise_and_or_boolean_and(),
                    '|' => self.bitwise_or_or_boolean_or(),
                    '*' => self.mul_or_pow(),
                    '-' => self.sub_or_arrow(),
                    '+' => self.add(),
                    '=' => self.assign_or_equal(),
                    '<' => self.lower_or_shift_left(),
                    '>' => self.greater_or_shift_right(),
                    '[' => self.bracket_open(),
                    ']' => self.bracket_close(),
                    '!' => self.not_or_not_equal(),
                    _ => {
                        if '0' <= c && c <= '9' {
                            proof {
                                lemma_scan_number_bound(s, q + 1, false);
                            }
                            self.number()
                        } else if special(c) {
                            None
                        } else if char_is_lowercase(c) {
                            proof {
                                lemma_special_end_bounds(s, q + 1);
                            }
                            self.identifier_or_keyword()
                        } else if char_is_uppercase(c) {
                            proof {
                                lemma_special_end_bounds(s, q + 1);
                            }
                            self.constant()
                        } else {
                            None
                        }
                    },
                };
            }
        }
    }

    /// Returns the next available token, if any. A peeked token is handed out
    /// before more input is read.
    pub fn next(&mut self) -> (r: Option<Token>)
        requires
            old(self).wf(),
        ensures
            final(self).wf(),
            next_step(*old(self), *final(self), r),
    {
        if self.peeked.is_some() {
            self.peeked.take()
        } else {
            self.next_raw()
        }
    }

    /// Returns the next token without consuming it.
    pub fn peek(&mut self) -> (r: Option<&Token>)
        requires
            old(self).wf(),
        ensures
            final(self).wf(),
            peek_step(*old(self), *final(self)),
            match r {
                Some(t) => final(self).peeked == Some(*t),
                None => final(self).peeked is None,
            },
    {
        if self.peeked.is_none() {
            self.peeked = self.next_raw();
        }
        self.peeked.as_ref()
    }

    /// Skips the current token and returns the one after it.
    pub fn skip_and_next(&mut self) -> (r: Option<Token>)
        requires
            old(self).wf(),
        ensures
            final(self).wf(),
            exists|mid: Lexer, skipped: Option<Token>|
                next_step(*old(self), mid, skipped) && next_step(mid, *final(self), r),
    {
        let ghost before = *self;
        let skipped = self.next();
        let ghost mid = *self;
        let r = self.next();
        assert(next_step(before, mid, skipped) && next_step(mid, *self, r));
        r
    }

    /// Returns true if the next token is of the given type.
    pub fn next_type_is(&mut self, token_type: TokenType) -> (r: bool)
        requires
            old(self).wf(),
        ensures
            final(self).wf(),
            peek_step(*old(self), *final(self)),
            r == (final(self).peeked matches Some(t) && t.token_type == token_type),
    {
        if let Some(token) = self.peek() {
            token.token_type == token_type
        } else {
            false
        }
    }
}

} // verus!
