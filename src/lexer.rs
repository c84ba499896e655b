//! The lexer: source text to tokens, one token per call.
use vstd::prelude::*;
use crate::interner::{Atom, StringInterner};
use crate::token::{Token, TokenPos, TokenType};

verus! {

/// The largest source, in characters, that a lexer accepts: about what a
/// `Vec<char>` can hold on a 32-bit target, whose allocations are at most
/// `isize::MAX` bytes.
pub const MAX_SOURCE_CHARS: usize = 0x1fff_fff0;

/// Text that the lexer's interner holds besides the lexemes: the keywords.
pub const KEYWORD_CHARS: usize = 48;

/// Whether the character counts as a letter.
pub uninterp spec fn alphabetic(c: char) -> bool;

/// Whether the character counts as a letter or a numeral.
pub uninterp spec fn alphanumeric(c: char) -> bool;

/// Relies on char::is_alphabetic: the Unicode Alphabetic property, which
/// the ASCII letters have.
#[verifier::external_body]
fn char_is_alphabetic(c: char) -> (r: bool)
    ensures
        r == alphabetic(c),
        ('a' <= c && c <= 'z') || ('A' <= c && c <= 'Z') ==> r,
{
    c.is_alphabetic()
}

/// Relies on char::is_alphanumeric: alphabetic or numeric, which the ASCII
/// letters and digits are.
#[verifier::external_body]
fn char_is_alphanumeric(c: char) -> (r: bool)
    ensures
        r == alphanumeric(c),
        ('a' <= c && c <= 'z') || ('A' <= c && c <= 'Z') || ('0' <= c && c <= '9') ==> r,
{
    c.is_alphanumeric()
}

/// Relies on str::chars: the characters of the text in order.
#[verifier::external_body]
pub(crate) fn chars_of_str(s: &str) -> (r: Vec<char>)
    ensures
        r@ == s@,
{
    s.chars().collect()
}

pub open spec fn is_digit(c: char) -> bool {
    '0' <= c && c <= '9'
}

pub open spec fn is_ascii_space(c: char) -> bool {
    c == ' ' || c == '\t' || c == '\n' || c == '\r' || c == '\x0C'
}

/// Where scanning resumes after whitespace and comments, from `i`. `depth`
/// counts the block comments (`#/ ... /#`, nestable) that are open; `line`
/// says that a line comment (`#` to the end of the line) is open.
pub open spec fn skip_from(s: Seq<char>, i: int, depth: nat, line: bool) -> int
    decreases s.len() - i,
{
    if i < 0 || i >= s.len() {
        i
    } else if line {
        if s[i] == '\n' {
            skip_from(s, i + 1, 0, false)
        } else {
            skip_from(s, i + 1, 0, true)
        }
    } else if depth > 0 {
        if i + 1 >= s.len() {
            s.len() as int
        } else if s[i] == '/' && s[i + 1] == '#' {
            skip_from(s, i + 2, (depth - 1) as nat, false)
        } else if s[i] == '#' && s[i + 1] == '/' {
            skip_from(s, i + 2, depth + 1, false)
        } else {
            skip_from(s, i + 1, depth, false)
        }
    } else if is_ascii_space(s[i]) {
        skip_from(s, i + 1, 0, false)
    } else if s[i] == '#' {
        if i + 1 < s.len() && s[i + 1] == '/' {
            skip_from(s, i + 2, 1, false)
        } else {
            skip_from(s, i + 1, 0, true)
        }
    } else {
        i
    }
}

/// The end of the run of decimal digits from `i`.
pub open spec fn digits_end(s: Seq<char>, i: int) -> int
    decreases s.len() - i,
{
    if 0 <= i < s.len() && is_digit(s[i]) {
        digits_end(s, i + 1)
    } else {
        i
    }
}

/// The end of a number whose first digit stands at `i`: digits, then a dot
/// and digits only where a digit follows the dot.
pub open spec fn number_end(s: Seq<char>, i: int) -> int {
    let j = digits_end(s, i + 1);
    if j + 1 < s.len() && s[j] == '.' && is_digit(s[j + 1]) {
        digits_end(s, j + 2)
    } else {
        j
    }
}

/// The end of the run of letters, numerals and underscores from `i`.
pub open spec fn ident_end(s: Seq<char>, i: int) -> int
    decreases s.len() - i,
{
    if 0 <= i < s.len() && (alphanumeric(s[i]) || s[i] == '_') {
        ident_end(s, i + 1)
    } else {
        i
    }
}

/// The first double quote at or after `i`, or the end of the text.
pub open spec fn quote_at(s: Seq<char>, i: int) -> int
    decreases s.len() - i,
{
    if i < 0 || i >= s.len() {
        s.len() as int
    } else if s[i] == '"' {
        i
    } else {
        quote_at(s, i + 1)
    }
}

/// The kind of an identifier-shaped word: a keyword's own kind, or Identifier.
pub open spec fn keyword_kind(w: Seq<char>) -> TokenType {
    if w == seq!['l', 'e', 't'] {
        TokenType::Let
    } else if w == seq!['n', 'i', 'l'] {
        TokenType::Nil
    } else if w == seq!['i', 'f'] {
        TokenType::If
    } else if w == seq!['e', 'l', 's', 'e'] {
        TokenType::Else
    } else if w == seq!['p', 'r', 'i', 'n', 't'] {
        TokenType::Print
    } else if w == seq!['t', 'r', 'u', 'e'] {
        TokenType::True
    } else if w == seq!['f', 'a', 'l', 's', 'e'] {
        TokenType::False
    } else if w == seq!['a', 'n', 'd'] {
        TokenType::And
    } else if w == seq!['o', 'r'] {
        TokenType::Or
    } else if w == seq!['n', 'o', 't'] {
        TokenType::Not
    } else if w == seq!['w', 'h', 'i', 'l', 'e'] {
        TokenType::While
    } else if w == seq!['f', 'n'] {
        TokenType::Fn
    } else if w == seq!['r', 'e', 't', 'u', 'r', 'n'] {
        TokenType::Return
    } else {
        TokenType::Identifier
    }
}

/// Whether the character after `i` is `c`.
pub open spec fn next_is(s: Seq<char>, i: int, c: char) -> bool {
    i + 1 < s.len() && s[i + 1] == c
}

/// A token of one character, or of two where the second is `second`.
pub open spec fn one_or_two(s: Seq<char>, i: int, second: char, one: TokenType, two: TokenType) -> (
    TokenType,
    int,
) {
    if next_is(s, i, second) {
        (two, i + 2)
    } else {
        (one, i + 1)
    }
}

/// The kind and end of the token that starts at `i`, for `0 <= i < |s|`.
pub open spec fn scan(s: Seq<char>, i: int) -> (TokenType, int) {
    let c = s[i];
    if c == '(' {
        (TokenType::ParenOpen, i + 1)
    } else if c == ')' {
        (TokenType::ParenClose, i + 1)
    } else if c == '[' {
        (TokenType::BracketOpen, i + 1)
    } else if c == ']' {
        (TokenType::BracketClose, i + 1)
    } else if c == '{' {
        (TokenType::BraceOpen, i + 1)
    } else if c == '}' {
        (TokenType::BraceClose, i + 1)
    } else if c == '+' {
        (TokenType::Plus, i + 1)
    } else if c == '-' {
        (TokenType::Minus, i + 1)
    } else if c == ',' {
        (TokenType::Comma, i + 1)
    } else if c == '%' {
        (TokenType::Percent, i + 1)
    } else if c == ';' {
        (TokenType::Semicolon, i + 1)
    } else if c == '=' {
        one_or_two(s, i, '=', TokenType::BadCharacter, TokenType::DoubleEqual)
    } else if c == '.' {
        one_or_two(s, i, '.', TokenType::BadCharacter, TokenType::DoubleDot)
    } else if c == ':' {
        one_or_two(s, i, '=', TokenType::BadCharacter, TokenType::ColonEqual)
    } else if c == '!' {
        one_or_two(s, i, '=', TokenType::BadCharacter, TokenType::BangEqual)
    } else if c == '*' {
        one_or_two(s, i, '*', TokenType::Star, TokenType::DoubleStar)
    } else if c == '/' {
        one_or_two(s, i, '/', TokenType::Slash, TokenType::DoubleSlash)
    } else if c == '<' {
        one_or_two(s, i, '=', TokenType::Less, TokenType::LessEqual)
    } else if c == '>' {
        one_or_two(s, i, '=', TokenType::Greater, TokenType::GreaterEqual)
    } else if c == '"' {
        let q = quote_at(s, i + 1);
        if q < s.len() {
            (TokenType::String, q + 1)
        } else {
            (TokenType::BadCharacter, s.len() as int)
        }
    } else if is_digit(c) {
        (TokenType::Number, number_end(s, i))
    } else if alphabetic(c) || c == '_' {
        let e = ident_end(s, i + 1);
        (keyword_kind(s.subrange(i, e)), e)
    } else {
        (TokenType::BadCharacter, i + 1)
    }
}

/// The token found from `i`: its kind, start and end. Past the end of the
/// text it is an empty Eof token, again and again.
pub open spec fn next_token(s: Seq<char>, i: int) -> (TokenType, int, int) {
    let st = skip_from(s, i, 0, false);
    if st >= s.len() {
        (TokenType::Eof, st, st)
    } else {
        let (k, e) = scan(s, st);
        (k, st, e)
    }
}

/// Line and column of index `i`.
pub open spec fn pos_of(s: Seq<char>, i: int) -> (nat, nat)
    decreases i,
{
    if i <= 0 {
        (1, 1)
    } else {
        let p = pos_of(s, i - 1);
        if s[i - 1] == '\n' {
            (p.0 + 1, 1)
        } else {
            (p.0, p.1 + 1)
        }
    }
}

pub proof fn lemma_pos_bound(s: Seq<char>, i: int)
    requires
        0 <= i,
    ensures
        1 <= pos_of(s, i).0 <= i + 1,
        1 <= pos_of(s, i).1 <= i + 1,
    decreases i,
{
    if i > 0 {
        lemma_pos_bound(s, i - 1);
    }
}

pub proof fn lemma_skip_bounds(s: Seq<char>, i: int, depth: nat, line: bool)
    requires
        0 <= i <= s.len(),
    ensures
        i <= skip_from(s, i, depth, line) <= s.len(),
    decreases s.len() - i,
{
    if i < s.len() {
        if line {
            lemma_skip_bounds(s, i + 1, 0, s[i] != '\n');
        } else if depth > 0 {
            if i + 1 < s.len() {
                if s[i] == '/' && s[i + 1] == '#' {
                    lemma_skip_bounds(s, i + 2, (depth - 1) as nat, false);
                } else if s[i] == '#' && s[i + 1] == '/' {
                    lemma_skip_bounds(s, i + 2, depth + 1, false);
                } else {
                    lemma_skip_bounds(s, i + 1, depth, false);
                }
            }
        } else if is_ascii_space(s[i]) {
            lemma_skip_bounds(s, i + 1, 0, false);
        } else if s[i] == '#' {
            if i + 1 < s.len() && s[i + 1] == '/' {
                lemma_skip_bounds(s, i + 2, 1, false);
            } else {
                lemma_skip_bounds(s, i + 1, 0, true);
            }
        }
    }
}

pub proof fn lemma_digits_end(s: Seq<char>, i: int)
    requires
        0 <= i <= s.len(),
    ensures
        i <= digits_end(s, i) <= s.len(),
    decreases s.len() - i,
{
    if i < s.len() && is_digit(s[i]) {
        lemma_digits_end(s, i + 1);
    }
}

pub proof fn lemma_ident_end(s: Seq<char>, i: int)
    requires
        0 <= i <= s.len(),
    ensures
        i <= ident_end(s, i) <= s.len(),
    decreases s.len() - i,
{
    if i < s.len() && (alphanumeric(s[i]) || s[i] == '_') {
        lemma_ident_end(s, i + 1);
    }
}

pub proof fn lemma_quote_at(s: Seq<char>, i: int)
    requires
        0 <= i <= s.len(),
    ensures
        i <= quote_at(s, i) <= s.len(),
    decreases s.len() - i,
{
    if i < s.len() && s[i] != '"' {
        lemma_quote_at(s, i + 1);
    }
}

/// The token found from `i` lies in `i..|s|` and, unless it is Eof, is not
/// empty.
pub proof fn lemma_next_token_bounds(s: Seq<char>, i: int)
    requires
        0 <= i <= s.len(),
    ensures
        i <= next_token(s, i).1 <= next_token(s, i).2 <= s.len(),
        next_token(s, i).0 == TokenType::Eof <==> next_token(s, i).1 == s.len(),
        next_token(s, i).0 != TokenType::Eof ==> next_token(s, i).1 < next_token(s, i).2,
        next_token(s, i).0 == TokenType::Eof ==> next_token(s, i).2 == s.len(),
{
    lemma_skip_bounds(s, i, 0, false);
    let st = skip_from(s, i, 0, false);
    if st < s.len() {
        lemma_digits_end(s, st + 1);
        let j = digits_end(s, st + 1);
        if j + 2 <= s.len() {
            lemma_digits_end(s, j + 2);
        }
        lemma_ident_end(s, st + 1);
        lemma_quote_at(s, st + 1);
        let e = ident_end(s, st + 1);
        let w = s.subrange(st, e);
        if alphabetic(s[st]) || s[st] == '_' {
            assert(keyword_kind(w) != TokenType::Eof);
        }
    }
}

pub struct KeywordAtoms {
    k_let: Atom,
    k_nil: Atom,
    k_if: Atom,
    k_else: Atom,
    k_print: Atom,
    k_true: Atom,
    k_false: Atom,
    k_and: Atom,
    k_or: Atom,
    k_not: Atom,
    k_while: Atom,
    k_fn: Atom,
    k_return: Atom,
    eof: Atom,
}

proof fn reveal_valid(k: &KeywordAtoms, i: &StringInterner)
    requires
        k.valid_in(i),
    ensures
        i.is_handle(k.eof),
{
}

impl KeywordAtoms {
    /// Every keyword atom is a handle of `i` with the keyword's text.
    pub closed spec fn valid_in(&self, i: &StringInterner) -> bool {
        &&& i.is_handle(self.k_let) && i.content(self.k_let) == seq!['l', 'e', 't']
        &&& i.is_handle(self.k_nil) && i.content(self.k_nil) == seq!['n', 'i', 'l']
        &&& i.is_handle(self.k_if) && i.content(self.k_if) == seq!['i', 'f']
        &&& i.is_handle(self.k_else) && i.content(self.k_else) == seq!['e', 'l', 's', 'e']
        &&& i.is_handle(self.k_print) && i.content(self.k_print) == seq!['p', 'r', 'i', 'n', 't']
        &&& i.is_handle(self.k_true) && i.content(self.k_true) == seq!['t', 'r', 'u', 'e']
        &&& i.is_handle(self.k_false) && i.content(self.k_false) == seq!['f', 'a', 'l', 's', 'e']
        &&& i.is_handle(self.k_and) && i.content(self.k_and) == seq!['a', 'n', 'd']
        &&& i.is_handle(self.k_or) && i.content(self.k_or) == seq!['o', 'r']
        &&& i.is_handle(self.k_not) && i.content(self.k_not) == seq!['n', 'o', 't']
        &&& i.is_handle(self.k_while) && i.content(self.k_while) == seq!['w', 'h', 'i', 'l', 'e']
        &&& i.is_handle(self.k_fn) && i.content(self.k_fn) == seq!['f', 'n']
        &&& i.is_handle(self.k_return) && i.content(self.k_return) == seq![
            'r',
            'e',
            't',
            'u',
            'r',
            'n',
        ]
        &&& i.is_handle(self.eof) && i.content(self.eof) == Seq::<char>::empty()
    }

    pub proof fn lemma_valid_later(&self, earlier: &StringInterner, later: &StringInterner)
        requires
            earlier.wf(),
            self.valid_in(earlier),
            later.extends(earlier),
        ensures
            self.valid_in(later),
    {
        later.lemma_extends_keeps(earlier, self.k_let);
        later.lemma_extends_keeps(earlier, self.k_nil);
        later.lemma_extends_keeps(earlier, self.k_if);
        later.lemma_extends_keeps(earlier, self.k_else);
        later.lemma_extends_keeps(earlier, self.k_print);
        later.lemma_extends_keeps(earlier, self.k_true);
        later.lemma_extends_keeps(earlier, self.k_false);
        later.lemma_extends_keeps(earlier, self.k_and);
        later.lemma_extends_keeps(earlier, self.k_or);
        later.lemma_extends_keeps(earlier, self.k_not);
        later.lemma_extends_keeps(earlier, self.k_while);
        later.lemma_extends_keeps(earlier, self.k_fn);
        later.lemma_extends_keeps(earlier, self.k_return);
        later.lemma_extends_keeps(earlier, self.eof);
    }

    fn intern_word(interner: &mut StringInterner, w: Vec<char>) -> (r: Atom)
        requires
            old(interner).wf(),
            old(interner).text().len() + w@.len() < usize::MAX,
            old(interner).handles().len() + 1 < usize::MAX,
        ensures
            final(interner).wf(),
            final(interner).extends(&*old(interner)),
            final(interner).is_handle(r),
            final(interner).content(r) == w@,
            final(interner).text().len() <= old(interner).text().len() + w@.len(),
            final(interner).handles().len() <= old(interner).handles().len() + 1,
    {
        interner.intern(w.as_slice())
    }

    #[verifier::rlimit(60)]
    #[verifier::spinoff_prover]
    pub fn with_interner(interner: &mut StringInterner) -> (r: Self)
        requires
            old(interner).wf(),
            old(interner).text().len() + KEYWORD_CHARS < usize::MAX,
            old(interner).handles().len() + 16 < usize::MAX,
        ensures
            final(interner).wf(),
            final(interner).extends(&*old(interner)),
            r.valid_in(&*final(interner)),
            final(interner).text().len() <= old(interner).text().len() + KEYWORD_CHARS,
            final(interner).handles().len() <= old(interner).handles().len() + 14,
    {
        let ghost i0 = *interner;
        let k_let = Self::intern_word(interner, vec!['l', 'e', 't']);
        let ghost i1 = *interner;
        let k_nil = Self::intern_word(interner, vec!['n', 'i', 'l']);
        let ghost i2 = *interner;
        let k_if = Self::intern_word(interner, vec!['i', 'f']);
        let ghost i3 = *interner;
        let k_else = Self::intern_word(interner, vec!['e', 'l', 's', 'e']);
        let ghost i4 = *interner;
        let k_print = Self::intern_word(interner, vec!['p', 'r', 'i', 'n', 't']);
        let ghost i5 = *interner;
        let k_true = Self::intern_word(interner, vec!['t', 'r', 'u', 'e']);
        let ghost i6 = *interner;
        let k_false = Self::intern_word(interner, vec!['f', 'a', 'l', 's', 'e']);
        let ghost i7 = *interner;
        let k_and = Self::intern_word(interner, vec!['a', 'n', 'd']);
        let ghost i8 = *interner;
        let k_or = Self::intern_word(interner, vec!['o', 'r']);
        let ghost i9 = *interner;
        let k_not = Self::intern_word(interner, vec!['n', 'o', 't']);
        let ghost i10 = *interner;
        let k_while = Self::intern_word(interner, vec!['w', 'h', 'i', 'l', 'e']);
        let ghost i11 = *interner;
        let k_fn = Self::intern_word(interner, vec!['f', 'n']);
        let ghost i12 = *interner;
        let k_return = Self::intern_word(interner, vec!['r', 'e', 't', 'u', 'r', 'n']);
        let ghost i13 = *interner;
        let eof = Self::intern_word(interner, Vec::new());
        let r = KeywordAtoms {
            k_let,
            k_nil,
            k_if,
            k_else,
            k_print,
            k_true,
            k_false,
            k_and,
            k_or,
            k_not,
            k_while,
            k_fn,
            k_return,
            eof,
        };
        proof {
            let fin = *interner;
            assert(fin.extends(&i0));
            fin.lemma_extends_keeps(&i1, k_let);
            fin.lemma_extends_keeps(&i2, k_nil);
            fin.lemma_extends_keeps(&i3, k_if);
            fin.lemma_extends_keeps(&i4, k_else);
            fin.lemma_extends_keeps(&i5, k_print);
            fin.lemma_extends_keeps(&i6, k_true);
            fin.lemma_extends_keeps(&i7, k_false);
            fin.lemma_extends_keeps(&i8, k_and);
            fin.lemma_extends_keeps(&i9, k_or);
            fin.lemma_extends_keeps(&i10, k_not);
            fin.lemma_extends_keeps(&i11, k_while);
            fin.lemma_extends_keeps(&i12, k_fn);
            fin.lemma_extends_keeps(&i13, k_return);
        }
        r
    }
}

/// Turns source text into tokens, one per call of `lex_token`.
pub struct Lexer {
    source: Vec<char>,
    current_index: usize,
    current_pos: TokenPos,
    interner: StringInterner,
    keyword_atoms: KeywordAtoms,
    /// The text of the last string literal lexed, without its quotes.
    last_string: Atom,
    /// How much text and how many handles the interner held when the lexer
    /// took it.
    base_text: Ghost<nat>,
    base_handles: Ghost<nat>,
}

impl Lexer {
    pub closed spec fn source(&self) -> Seq<char> {
        self.source@
    }

    /// The index from which the next token is sought.
    pub closed spec fn cursor(&self) -> int {
        self.current_index as int
    }

    pub closed spec fn strings(&self) -> StringInterner {
        self.interner
    }

    pub closed spec fn wf(&self) -> bool {
        &&& self.source@.len() <= MAX_SOURCE_CHARS
        &&& self.current_index <= self.source@.len()
        &&& self.current_pos.line == pos_of(self.source@, self.current_index as int).0
        &&& self.current_pos.column == pos_of(self.source@, self.current_index as int).1
        &&& self.interner.wf()
        &&& self.keyword_atoms.valid_in(&self.interner)
        &&& self.base_text@ <= MAX_SOURCE_CHARS
        &&& self.base_handles@ <= MAX_SOURCE_CHARS
        &&& self.interner.text().len() <= self.base_text@ + KEYWORD_CHARS + self.current_index
        &&& self.interner.handles().len() <= self.base_handles@ + 14 + 2 * self.current_index
        &&& self.interner.is_handle(self.last_string)
    }

    /// The atom of the last string literal's text, without its quotes.
    pub closed spec fn unquoted(&self) -> Atom {
        self.last_string
    }

    pub proof fn lemma_cursor(&self)
        requires
            self.wf(),
        ensures
            0 <= self.cursor() <= self.source().len(),
            self.strings().wf(),
            self.strings().is_handle(self.unquoted()),
    {
    }

    pub fn new(source: &str, interner: StringInterner) -> (r: Self)
        requires
            interner.wf(),
            interner.text().len() <= MAX_SOURCE_CHARS,
            interner.handles().len() <= MAX_SOURCE_CHARS,
            source@.len() <= MAX_SOURCE_CHARS,
        ensures
            r.wf(),
            r.source() == source@,
            r.cursor() == 0,
    {
        let chars = chars_of_str(source);
        Self::from_chars(chars, interner)
    }

    pub fn from_chars(source: Vec<char>, interner: StringInterner) -> (r: Self)
        requires
            interner.wf(),
            interner.text().len() <= MAX_SOURCE_CHARS,
            interner.handles().len() <= MAX_SOURCE_CHARS,
            source@.len() <= MAX_SOURCE_CHARS,
        ensures
            r.wf(),
            r.source() == source@,
            r.cursor() == 0,
    {
        let ghost base_text = interner.text().len();
        let ghost base_handles = interner.handles().len();
        let mut interner = interner;
        let keyword_atoms = KeywordAtoms::with_interner(&mut interner);
        proof {
            reveal_valid(&keyword_atoms, &interner);
        }
        let last_string = keyword_atoms.eof;
        Lexer {
            source,
            current_index: 0,
            current_pos: TokenPos::new(1, 1),
            interner,
            keyword_atoms,
            last_string,
            base_text: Ghost(base_text),
            base_handles: Ghost(base_handles),
        }
    }

    /// Gives the interner back, with every lexeme handed out so far.
    pub fn into_interner(self) -> (r: StringInterner)
        ensures
            r == self.strings(),
    {
        self.interner
    }

    /// The atom of the last string literal's text, without its quotes.
    pub fn unquoted_string(&self) -> (r: Atom)
        ensures
            r == self.unquoted(),
    {
        self.last_string
    }

    pub fn interner(&self) -> (r: &StringInterner)
        ensures
            *r == self.strings(),
    {
        &self.interner
    }

    fn peek_char(&self) -> (r: Option<char>)
        requires
            self.wf(),
        ensures
            r == (if self.current_index < self.source@.len() {
                Some(self.source@[self.current_index as int])
            } else {
                None::<char>
            }),
    {
        if self.current_index < self.source.len() {
            Some(self.source[self.current_index])
        } else {
            None
        }
    }

    fn peek_next(&self) -> (r: Option<char>)
        requires
            self.wf(),
        ensures
            r == (if self.current_index + 1 < self.source@.len() {
                Some(self.source@[self.current_index + 1])
            } else {
                None::<char>
            }),
    {
        if self.current_index + 1 < self.source.len() {
            Some(self.source[self.current_index + 1])
        } else {
            None
        }
    }

    /// Moves one character on, keeping the position in step.
    fn advance(&mut self) -> (r: Option<char>)
        requires
            old(self).wf(),
        ensures
            final(self).wf(),
            final(self).source@ == old(self).source@,
            final(self).interner == old(self).interner,
            final(self).keyword_atoms == old(self).keyword_atoms,
            final(self).last_string == old(self).last_string,
            final(self).base_text == old(self).base_text,
            final(self).base_handles == old(self).base_handles,
            r == (if old(self).current_index < old(self).source@.len() {
                Some(old(self).source@[old(self).current_index as int])
            } else {
                None::<char>
            }),
            final(self).current_index == (if old(self).current_index < old(self).source@.len() {
                old(self).current_index + 1
            } else {
                old(self).current_index as int
            }),
    {
        let c = self.peek_char();
        if let Some(ch) = c {
            proof {
                lemma_pos_bound(self.source@, self.current_index + 1);
            }
            if ch == '\n' {
                self.current_pos = TokenPos::new(self.current_pos.line + 1, 1);
            } else {
                self.current_pos = TokenPos::new(self.current_pos.line, self.current_pos.column + 1);
            }
            self.current_index = self.current_index + 1;
        }
        c
    }

    /// Moves past whitespace and comments.
    fn skip_whitespace(&mut self)
        requires
            old(self).wf(),
        ensures
            final(self).wf(),
            final(self).source@ == old(self).source@,
            final(self).interner == old(self).interner,
            final(self).keyword_atoms == old(self).keyword_atoms,
            final(self).last_string == old(self).last_string,
            final(self).base_text == old(self).base_text,
            final(self).base_handles == old(self).base_handles,
            final(self).current_index == skip_from(
                old(self).source@,
                old(self).current_index as int,
                0,
                false,
            ),
    {
        let ghost s = self.source@;
        let ghost target = skip_from(s, self.current_index as int, 0, false);
        let mut depth: usize = 0;
        let mut line = false;
        loop
            invariant
                self.wf(),
                self.source@ == s,
                self.interner == old(self).interner,
                self.keyword_atoms == old(self).keyword_atoms,
                self.last_string == old(self).last_string,
                self.base_text == old(self).base_text,
                self.base_handles == old(self).base_handles,
                depth <= self.current_index,
                skip_from(s, self.current_index as int, depth as nat, line) == target,
                target == skip_from(old(self).source@, old(self).current_index as int, 0, false),
                line ==> depth == 0,
            ensures
                self.current_index == target,
            decreases s.len() - self.current_index,
        {
            let peeked = self.peek_char();
            if peeked.is_none() {
                break;
            }
            let c = peeked.unwrap();
            if line {
                self.advance();
                if c == '\n' {
                    line = false;
                }
            } else if depth > 0 {
                match self.peek_next() {
                    None => {
                        self.advance();
                    },
                    Some(n) => {
                        if c == '/' && n == '#' {
                            self.advance();
                            self.advance();
                            depth = depth - 1;
                        } else if c == '#' && n == '/' {
                            self.advance();
                            self.advance();
                            depth = depth + 1;
                        } else {
                            self.advance();
                        }
                    },
                }
            } else if c == ' ' || c == '\t' || c == '\n' || c == '\r' || c == '\x0C' {
                self.advance();
            } else if c == '#' {
                if self.peek_next() == Some('/') {
                    self.advance();
                    self.advance();
                    depth = 1;
                } else {
                    self.advance();
                    line = true;
                }
            } else {
                break;
            }
        }
    }

    /// Moves on to index `to`.
    fn advance_to(&mut self, to: usize)
        requires
            old(self).wf(),
            old(self).current_index <= to <= old(self).source@.len(),
        ensures
            final(self).wf(),
            final(self).source@ == old(self).source@,
            final(self).interner == old(self).interner,
            final(self).keyword_atoms == old(self).keyword_atoms,
            final(self).last_string == old(self).last_string,
            final(self).base_text == old(self).base_text,
            final(self).base_handles == old(self).base_handles,
            final(self).current_index == to,
    {
        while self.current_index < to
            invariant
                self.wf(),
                self.source@ == old(self).source@,
                self.interner == old(self).interner,
                self.keyword_atoms == old(self).keyword_atoms,
                self.last_string == old(self).last_string,
                self.base_text == old(self).base_text,
                self.base_handles == old(self).base_handles,
                self.current_index <= to <= self.source@.len(),
            decreases to - self.current_index,
        {
            self.advance();
        }
    }

    fn digits_end(&self, i: usize) -> (r: usize)
        requires
            self.wf(),
            i <= self.source@.len(),
        ensures
            r == digits_end(self.source@, i as int),
    {
        let mut j = i;
        while j < self.source.len() && '0' <= self.source[j] && self.source[j] <= '9'
            invariant
                self.wf(),
                i <= j <= self.source@.len(),
                digits_end(self.source@, j as int) == digits_end(self.source@, i as int),
            decreases self.source@.len() - j,
        {
            j = j + 1;
        }
        j
    }

    fn ident_end(&self, i: usize) -> (r: usize)
        requires
            self.wf(),
            i <= self.source@.len(),
        ensures
            r == ident_end(self.source@, i as int),
    {
        let mut j = i;
        while j < self.source.len() && (char_is_alphanumeric(self.source[j]) || self.source[j] == '_')
            invariant
                self.wf(),
                i <= j <= self.source@.len(),
                ident_end(self.source@, j as int) == ident_end(self.source@, i as int),
            decreases self.source@.len() - j,
        {
            j = j + 1;
        }
        j
    }

    fn quote_at(&self, i: usize) -> (r: usize)
        requires
            self.wf(),
            i <= self.source@.len(),
        ensures
            r == quote_at(self.source@, i as int),
    {
        let mut j = i;
        while j < self.source.len() && self.source[j] != '"'
            invariant
                self.wf(),
                i <= j <= self.source@.len(),
                quote_at(self.source@, j as int) == quote_at(self.source@, i as int),
            decreases self.source@.len() - j,
        {
            j = j + 1;
        }
        j
    }

    fn finish_number(&self, start: usize) -> (r: usize)
        requires
            self.wf(),
            start < self.source@.len(),
        ensures
            r == number_end(self.source@, start as int),
    {
        proof { lemma_digits_end(self.source@, start + 1); }
        let j = self.digits_end(start + 1);
        if j + 1 < self.source.len() && self.source[j] == '.' && '0' <= self.source[j + 1]
            && self.source[j + 1] <= '9' {
            self.digits_end(j + 2)
        } else {
            j
        }
    }

    /// The kind of the token at `start`, which is not past the end, and its end.
    /// An identifier-shaped word comes back as Identifier with `r.2` set:
    /// whether it is a keyword is decided on its atom.
    fn scan_token(&self, start: usize) -> (r: (TokenType, usize, bool))
        requires
            self.wf(),
            start < self.source@.len(),
        ensures
            r.1 == scan(self.source@, start as int).1,
            r.2 ==> scan(self.source@, start as int).0 == keyword_kind(
                self.source@.subrange(start as int, r.1 as int),
            ),
            !r.2 ==> r.0 == scan(self.source@, start as int).0,
    {
        let s = &self.source;
        let c = s[start];
        let next = if start + 1 < s.len() {
            Some(s[start + 1])
        } else {
            None
        };
        let one = start + 1;
        let two = start + 2;
        match c {
            '(' => (TokenType::ParenOpen, one, false),
            ')' => (TokenType::ParenClose, one, false),
            '[' => (TokenType::BracketOpen, one, false),
            ']' => (TokenType::BracketClose, one, false),
            '{' => (TokenType::BraceOpen, one, false),
            '}' => (TokenType::BraceClose, one, false),
            '+' => (TokenType::Plus, one, false),
            '-' => (TokenType::Minus, one, false),
            ',' => (TokenType::Comma, one, false),
            '%' => (TokenType::Percent, one, false),
            ';' => (TokenType::Semicolon, one, false),
            '=' => if next == Some('=') {
                (TokenType::DoubleEqual, two, false)
            } else {
                (TokenType::BadCharacter, one, false)
            },
            '.' => if next == Some('.') {
                (TokenType::DoubleDot, two, false)
            } else {
                (TokenType::BadCharacter, one, false)
            },
            ':' => if next == Some('=') {
                (TokenType::ColonEqual, two, false)
            } else {
                (TokenType::BadCharacter, one, false)
            },
            '!' => if next == Some('=') {
                (TokenType::BangEqual, two, false)
            } else {
                (TokenType::BadCharacter, one, false)
            },
            '*' => if next == Some('*') {
                (TokenType::DoubleStar, two, false)
            } else {
                (TokenType::Star, one, false)
            },
            '/' => if next == Some('/') {
                (TokenType::DoubleSlash, two, false)
            } else {
                (TokenType::Slash, one, false)
            },
            '<' => if next == Some('=') {
                (TokenType::LessEqual, two, false)
            } else {
                (TokenType::Less, one, false)
            },
            '>' => if next == Some('=') {
                (TokenType::GreaterEqual, two, false)
            } else {
                (TokenType::Greater, one, false)
            },
            '"' => {
                let q = self.quote_at(one);
                if q < s.len() {
                    (TokenType::String, q + 1, false)
                } else {
                    (TokenType::BadCharacter, s.len(), false)
                }
            },
            _ => {
                if '0' <= c && c <= '9' {
                    (TokenType::Number, self.finish_number(start), false)
                } else if char_is_alphabetic(c) || c == '_' {
                    proof { lemma_ident_end(self.source@, start + 1); }
                    let e = self.ident_end(one);
                    (TokenType::Identifier, e, true)
                } else {
                    (TokenType::BadCharacter, one, false)
                }
            },
        }
    }

    /// The kind of an identifier-shaped lexeme: a keyword's kind where the
    /// atom is that keyword's atom, else Identifier.
    fn keyword_type(&self, a: Atom) -> (r: TokenType)
        requires
            self.wf(),
            self.interner.is_handle(a),
        ensures
            r == keyword_kind(self.interner.content(a)),
    {
        let kw = &self.keyword_atoms;
        proof {
            if self.interner.content(a) == seq!['l', 'e', 't'] {
                self.interner.lemma_handles_unique(a, kw.k_let);
            }
            if self.interner.content(a) == seq!['n', 'i', 'l'] {
                self.interner.lemma_handles_unique(a, kw.k_nil);
            }
            if self.interner.content(a) == seq!['i', 'f'] {
                self.interner.lemma_handles_unique(a, kw.k_if);
            }
            if self.interner.content(a) == seq!['e', 'l', 's', 'e'] {
                self.interner.lemma_handles_unique(a, kw.k_else);
            }
            if self.interner.content(a) == seq!['p', 'r', 'i', 'n', 't'] {
                self.interner.lemma_handles_unique(a, kw.k_print);
            }
            if self.interner.content(a) == seq!['t', 'r', 'u', 'e'] {
                self.interner.lemma_handles_unique(a, kw.k_true);
            }
            if self.interner.content(a) == seq!['f', 'a', 'l', 's', 'e'] {
                self.interner.lemma_handles_unique(a, kw.k_false);
            }
            if self.interner.content(a) == seq!['a', 'n', 'd'] {
                self.interner.lemma_handles_unique(a, kw.k_and);
            }
            if self.interner.content(a) == seq!['o', 'r'] {
                self.interner.lemma_handles_unique(a, kw.k_or);
            }
            if self.interner.content(a) == seq!['n', 'o', 't'] {
                self.interner.lemma_handles_unique(a, kw.k_not);
            }
            if self.interner.content(a) == seq!['w', 'h', 'i', 'l', 'e'] {
                self.interner.lemma_handles_unique(a, kw.k_while);
            }
            if self.interner.content(a) == seq!['f', 'n'] {
                self.interner.lemma_handles_unique(a, kw.k_fn);
            }
            if self.interner.content(a) == seq!['r', 'e', 't', 'u', 'r', 'n'] {
                self.interner.lemma_handles_unique(a, kw.k_return);
            }
        }
        if a == kw.k_let {
            TokenType::Let
        } else if a == kw.k_nil {
            TokenType::Nil
        } else if a == kw.k_if {
            TokenType::If
        } else if a == kw.k_else {
            TokenType::Else
        } else if a == kw.k_print {
            TokenType::Print
        } else if a == kw.k_true {
            TokenType::True
        } else if a == kw.k_false {
            TokenType::False
        } else if a == kw.k_and {
            TokenType::And
        } else if a == kw.k_or {
            TokenType::Or
        } else if a == kw.k_not {
            TokenType::Not
        } else if a == kw.k_while {
            TokenType::While
        } else if a == kw.k_fn {
            TokenType::Fn
        } else if a == kw.k_return {
            TokenType::Return
        } else {
            TokenType::Identifier
        }
    }

    /// The next token. Past the end of the text every call gives Eof.
    pub fn lex_token(&mut self) -> (r: Token)
        requires
            old(self).wf(),
        ensures
            final(self).wf(),
            final(self).source() == old(self).source(),
            final(self).strings().extends(&old(self).strings()),
            ({
                let (k, st, e) = next_token(old(self).source(), old(self).cursor());
                &&& r.token_type == k
                &&& final(self).cursor() == e
                &&& r.pos.line == pos_of(old(self).source(), st).0
                &&& r.pos.column == pos_of(old(self).source(), st).1
                &&& final(self).strings().is_handle(r.lexeme)
                &&& final(self).strings().content(r.lexeme) == old(self).source().subrange(st, e)
                &&& k == TokenType::String ==> final(self).strings().content(final(self).unquoted())
                    == old(self).source().subrange(st + 1, e - 1)
                &&& k != TokenType::String ==> final(self).unquoted() == old(self).unquoted()
            }),
    {
        proof { lemma_next_token_bounds(self.source@, self.current_index as int); }
        self.skip_whitespace();
        let start = self.current_index;
        let pos = self.current_pos;
        if start >= self.source.len() {
            proof {
                assert(self.source@.subrange(start as int, start as int) =~= Seq::<char>::empty());
            }
            return Token { pos, token_type: TokenType::Eof, lexeme: self.keyword_atoms.eof };
        }
        let (kind, end, word) = self.scan_token(start);
        proof {
            lemma_pos_bound(self.source@, end as int);
        }
        self.advance_to(end);
        let ghost before = self.interner;
        let lexeme = self.make_lexeme(start, end);
        proof {
            self.keyword_atoms.lemma_valid_later(&before, &self.interner);
        }
        let token_type = if word {
            self.keyword_type(lexeme)
        } else {
            kind
        };
        if token_type == TokenType::String {
            let ghost mid = self.interner;
            proof {
                lemma_quote_at(self.source@, start + 1);
                assert(end - start >= 2);
                self.interner.lemma_handle_bounds(lexeme);
                assert(self.interner.content(lexeme).len() == end - start);
            }
            self.last_string = self.interner.cut(lexeme, 1, 1);
            proof {
                self.keyword_atoms.lemma_valid_later(&mid, &self.interner);
                self.interner.lemma_extends_keeps(&mid, lexeme);
                assert(self.source@.subrange(start as int, end as int).subrange(1, end - start - 1)
                    =~= self.source@.subrange(start + 1, end - 1));
            }
        }
        Token { pos, token_type, lexeme }
    }

    /// Interns `source[start..end]`.
    fn make_lexeme(&mut self, start: usize, end: usize) -> (r: Atom)
        requires
            old(self).wf(),
            old(self).current_index == end,
            start < end <= old(self).source@.len(),
            old(self).interner.text().len() <= old(self).base_text@ + KEYWORD_CHARS + start,
            old(self).interner.handles().len() <= old(self).base_handles@ + 14 + 2 * start,
        ensures
            final(self).source@ == old(self).source@,
            final(self).current_index == old(self).current_index,
            final(self).current_pos == old(self).current_pos,
            final(self).keyword_atoms == old(self).keyword_atoms,
            final(self).last_string == old(self).last_string,
            final(self).base_text == old(self).base_text,
            final(self).base_handles == old(self).base_handles,
            final(self).interner.wf(),
            final(self).interner.extends(&old(self).interner),
            final(self).interner.is_handle(r),
            final(self).interner.content(r) == old(self).source@.subrange(start as int, end as int),
            final(self).interner.handles().len() <= old(self).base_handles@ + 15 + 2 * start,
            final(self).base_text == old(self).base_text,
            final(self).base_handles == old(self).base_handles,
            final(self).wf(),
    {
        let mut w: Vec<char> = Vec::new();
        let mut k = start;
        while k < end
            invariant
                start <= k <= end <= self.source@.len(),
                w@ == self.source@.subrange(start as int, k as int),
            decreases end - k,
        {
            w.push(self.source[k]);
            k = k + 1;
            assert(w@ =~= self.source@.subrange(start as int, k as int));
        }
        let ghost before = self.interner;
        let r = self.interner.intern(w.as_slice());
        proof {
            self.keyword_atoms.lemma_valid_later(&before, &self.interner);
            self.interner.lemma_extends_keeps(&before, self.last_string);
        }
        r
    }
}

/// The characters that begin an operator or a delimiter.
pub open spec fn is_punctuation(c: char) -> bool {
    c == '(' || c == ')' || c == '[' || c == ']' || c == '{' || c == '}' || c == '+' || c == '-'
        || c == ',' || c == '%' || c == ';' || c == '=' || c == '.' || c == ':' || c == '!' || c
        == '*' || c == '/' || c == '<' || c == '>'
}

/// Where whitespace and comments end before the end of the text, a token
/// starts: no space and no `#` stands there.
pub proof fn lemma_skip_stops(s: Seq<char>, i: int, depth: nat, line: bool)
    requires
        0 <= i <= s.len(),
        skip_from(s, i, depth, line) < s.len(),
    ensures
        !is_ascii_space(s[skip_from(s, i, depth, line)]),
        s[skip_from(s, i, depth, line)] != '#',
    decreases s.len() - i,
{
    if i < s.len() {
        if line {
            lemma_skip_stops(s, i + 1, 0, s[i] != '\n');
        } else if depth > 0 {
            if i + 1 < s.len() {
                if s[i] == '/' && s[i + 1] == '#' {
                    lemma_skip_stops(s, i + 2, (depth - 1) as nat, false);
                } else if s[i] == '#' && s[i + 1] == '/' {
                    lemma_skip_stops(s, i + 2, depth + 1, false);
                } else {
                    lemma_skip_stops(s, i + 1, depth, false);
                }
            }
        } else if is_ascii_space(s[i]) {
            lemma_skip_stops(s, i + 1, 0, false);
        } else if s[i] == '#' {
            if i + 1 < s.len() && s[i + 1] == '/' {
                lemma_skip_stops(s, i + 2, 1, false);
            } else {
                lemma_skip_stops(s, i + 1, 0, true);
            }
        }
    }
}

proof fn lemma_digits_in(s: Seq<char>, st: int, e: int, a: int)
    requires
        0 <= st <= a <= digits_end(s, a) <= e <= s.len(),
    ensures
        digits_end(s.subrange(st, e), a - st) == digits_end(s, a) - st,
    decreases e - a,
{
    let w = s.subrange(st, e);
    if a < e && is_digit(s[a]) {
        assert(w[a - st] == s[a]);
        lemma_digits_end(s, a + 1);
        lemma_digits_in(s, st, e, a + 1);
    } else if a < e {
        assert(w[a - st] == s[a]);
    }
}

proof fn lemma_ident_in(s: Seq<char>, st: int, e: int, a: int)
    requires
        0 <= st <= a <= ident_end(s, a) <= e <= s.len(),
    ensures
        ident_end(s.subrange(st, e), a - st) == ident_end(s, a) - st,
    decreases e - a,
{
    let w = s.subrange(st, e);
    if a < e && (alphanumeric(s[a]) || s[a] == '_') {
        assert(w[a - st] == s[a]);
        lemma_ident_end(s, a + 1);
        lemma_ident_in(s, st, e, a + 1);
    } else if a < e {
        assert(w[a - st] == s[a]);
    }
}

proof fn lemma_quote_in(s: Seq<char>, st: int, e: int, a: int)
    requires
        0 <= st <= a <= e <= s.len(),
        quote_at(s, a) == e - 1 || (quote_at(s, a) == s.len() && e == s.len()),
        a <= quote_at(s, a),
    ensures
        quote_at(s.subrange(st, e), a - st) == (if quote_at(s, a) < s.len() {
            quote_at(s, a) - st
        } else {
            e - st
        }),
    decreases e - a,
{
    let w = s.subrange(st, e);
    if a < e && a < s.len() {
        assert(w[a - st] == s[a]);
        if s[a] != '"' {
            lemma_quote_at(s, a + 1);
            lemma_quote_in(s, st, e, a + 1);
        }
    }
}

/// Lexing one token's text on its own gives that token back: the same
/// kind, spanning the whole text.
pub proof fn law_token_text_lexes_to_itself(s: Seq<char>, i: int)
    requires
        0 <= i <= s.len(),
        next_token(s, i).0 != TokenType::Eof,
    ensures
        ({
            let (k, st, e) = next_token(s, i);
            let w = s.subrange(st, e);
            next_token(w, 0) == (k, 0int, e - st)
        }),
{
    lemma_next_token_bounds(s, i);
    let (k, st, e) = next_token(s, i);
    let w = s.subrange(st, e);
    lemma_skip_stops(s, i, 0, false);
    assert(w[0] == s[st]);
    assert(skip_from(w, 0, 0, false) == 0);
    let c = s[st];
    if st + 1 < e {
        assert(w[1] == s[st + 1]);
    }
    if is_digit(c) {
        assert(e == number_end(s, st));
        lemma_digits_end(s, st + 1);
        let j = digits_end(s, st + 1);
        if j + 1 < s.len() && s[j] == '.' && is_digit(s[j + 1]) {
            lemma_digits_end(s, j + 2);
        }
        lemma_digits_in(s, st, e, st + 1);
        if j + 1 < s.len() && s[j] == '.' && is_digit(s[j + 1]) {
            assert(w[j - st] == s[j]);
            assert(w[j + 1 - st] == s[j + 1]);
            lemma_digits_in(s, st, e, j + 2);
        } else if j < e {
            assert(false);
        }
    } else if c == '"' {
        lemma_quote_at(s, st + 1);
        lemma_quote_in(s, st, e, st + 1);
    } else if !is_punctuation(c) && (alphabetic(c) || c == '_') {
        lemma_ident_end(s, st + 1);
        assert(e == ident_end(s, st + 1));
        lemma_ident_in(s, st, e, st + 1);
        assert(w.subrange(0, e - st) =~= w);
    }
}

} // verus!
