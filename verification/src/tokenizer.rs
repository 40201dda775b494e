//! The lexical tokenizer: command text in, a flat token sequence out.
//!
//! Scanning goes left to right, longest match per rule: whitespace is
//! skipped; a digit run becomes an integer literal unless a letter follows
//! it directly, in which case the whole alphanumeric run is an identifier; a
//! letter run becomes a keyword, a logical operator or an identifier; a
//! single-quoted run becomes a string literal (an unterminated one keeps
//! whatever was collected); `=`, `<`, `>`, `<=` and `>=` become comparison
//! operators; `,`, `(`, `)`, `;` and `*` become symbols; anything else is a
//! lexical error.

use crate::error::CustomError;
use crate::text::alnum_char;
use crate::text::alpha_char;
use crate::text::chars_of;
use crate::text::count_while;
use crate::text::digit_char;
use crate::text::lemma_count_while;
use crate::text::is_alnum_char;
use crate::text::is_alpha_char;
use crate::text::is_digit_char;
use crate::text::is_space_char;
use crate::text::space_char;
use crate::text::str_eq_str;
use crate::text::string_from_chars;
use crate::text::upper_chars;
use crate::text::upper_vec;
use vstd::prelude::*;
use vstd::string::StringExecFns;

verus! {

/// The smallest unit of a command: keywords, logical and comparison
/// operators, identifiers, string and integer literals, and the symbols
/// `, ( ) ; *`.
#[derive(Debug, PartialEq)]
pub enum Token {
    /// One of INSERT, UPDATE, DELETE, SELECT, FROM, WHERE, SET, INTO,
    /// VALUES, ORDER, BY, DESC, upper-cased.
    Keyword(String),
    /// One of AND, OR, NOT, upper-cased.
    LogicalOperator(String),
    /// One of `=`, `!=`, `<`, `>`, `<=`, `>=` (the tokenizer itself never
    /// produces `!=`; the evaluator still accepts it).
    ComparisonOperator(String),
    /// A table or column name, casing preserved.
    Identifier(String),
    /// The text between single quotes.
    StringLiteral(String),
    /// A run of decimal digits, kept as text.
    IntegerLiteral(String),
    /// One of `, ( ) ; *`.
    Symbol(char),
}

/// The mathematical shadow of a [`Token`]: the same variants over plain
/// character sequences.
pub enum TokenModel {
    Keyword(Seq<char>),
    LogicalOperator(Seq<char>),
    ComparisonOperator(Seq<char>),
    Identifier(Seq<char>),
    StringLiteral(Seq<char>),
    IntegerLiteral(Seq<char>),
    Symbol(char),
}

impl View for Token {
    type V = TokenModel;

    open spec fn view(&self) -> TokenModel {
        match self {
            Token::Keyword(s) => TokenModel::Keyword(s@),
            Token::LogicalOperator(s) => TokenModel::LogicalOperator(s@),
            Token::ComparisonOperator(s) => TokenModel::ComparisonOperator(s@),
            Token::Identifier(s) => TokenModel::Identifier(s@),
            Token::StringLiteral(s) => TokenModel::StringLiteral(s@),
            Token::IntegerLiteral(s) => TokenModel::IntegerLiteral(s@),
            Token::Symbol(c) => TokenModel::Symbol(*c),
        }
    }
}

impl DeepView for Token {
    type V = TokenModel;

    open spec fn deep_view(&self) -> TokenModel {
        self.view()
    }
}

/// The upper-cased words that scan as [`Token::Keyword`].
pub open spec fn is_keyword_text(s: Seq<char>) -> bool {
    ||| s == "INSERT"@
    ||| s == "UPDATE"@
    ||| s == "DELETE"@
    ||| s == "SELECT"@
    ||| s == "FROM"@
    ||| s == "WHERE"@
    ||| s == "SET"@
    ||| s == "INTO"@
    ||| s == "VALUES"@
    ||| s == "ORDER"@
    ||| s == "BY"@
    ||| s == "DESC"@
}

/// The upper-cased words that scan as [`Token::LogicalOperator`].
pub open spec fn is_logical_text(s: Seq<char>) -> bool {
    s == "AND"@ || s == "OR"@ || s == "NOT"@
}

/// The characters that scan as [`Token::Symbol`].
pub open spec fn is_symbol_char(c: char) -> bool {
    c == ',' || c == '(' || c == ')' || c == ';' || c == '*'
}

/// The run of digits, as a predicate value shared by spec and proofs.
pub open spec fn digit_pred() -> spec_fn(char) -> bool {
    |ch: char| is_digit_char(ch)
}

/// The run of letters and digits, as a predicate value.
pub open spec fn alnum_pred() -> spec_fn(char) -> bool {
    |ch: char| is_alnum_char(ch)
}

/// The run of characters other than the closing quote, as a predicate
/// value.
pub open spec fn nonquote_pred() -> spec_fn(char) -> bool {
    |ch: char| ch != '\''
}

/// Puts one more token in front of a scan result, propagating failure.
pub open spec fn with_token(
    t: TokenModel,
    rest: Option<Seq<TokenModel>>,
) -> Option<Seq<TokenModel>> {
    match rest {
        Some(ts) => Some(seq![t] + ts),
        None => None,
    }
}

/// Puts already-scanned tokens in front of a scan result, propagating
/// failure.
pub open spec fn with_tokens(
    pre: Seq<TokenModel>,
    rest: Option<Seq<TokenModel>>,
) -> Option<Seq<TokenModel>> {
    match rest {
        Some(ts) => Some(pre + ts),
        None => None,
    }
}

pub proof fn lemma_with_tokens_step(
    pre: Seq<TokenModel>,
    t: TokenModel,
    rest: Option<Seq<TokenModel>>,
)
    ensures
        with_tokens(pre, with_token(t, rest)) == with_tokens(pre.push(t), rest),
{
    match rest {
        Some(ts) => {
            assert(pre + (seq![t] + ts) =~= pre.push(t) + ts);
        },
        None => {},
    }
}

pub proof fn lemma_with_tokens_empty(pre: Seq<TokenModel>)
    ensures
        with_tokens(pre, Some(Seq::<TokenModel>::empty())) == Some(pre),
{
    assert(pre + Seq::<TokenModel>::empty() =~= pre);
}

/// The tokens scanned from position `i` onward, or `None` on the first
/// unrecognized character.  This is the tokenizer's whole specification;
/// [`tokenize`] is proved against it.
pub open spec fn spec_tokenize_at(s: Seq<char>, i: int) -> Option<Seq<TokenModel>>
    decreases s.len() - i,
    when 0 <= i <= s.len()
{
    if i >= s.len() {
        Some(Seq::empty())
    } else {
        let c = s[i];
        if is_space_char(c) {
            spec_tokenize_at(s, i + 1)
        } else if is_digit_char(c) {
            let d = count_while(s, i, digit_pred());
            proof {
                lemma_count_while(s, i, digit_pred());
            }
            if i + d < s.len() && is_alpha_char(s[i + d]) {
                let a = count_while(s, i + d, alnum_pred());
                proof {
                    lemma_count_while(s, i + d, alnum_pred());
                }
                with_token(
                    TokenModel::Identifier(s.subrange(i, i + d + a)),
                    spec_tokenize_at(s, i + d + a),
                )
            } else {
                with_token(
                    TokenModel::IntegerLiteral(s.subrange(i, i + d)),
                    spec_tokenize_at(s, i + d),
                )
            }
        } else if is_alpha_char(c) {
            let w = count_while(s, i, alnum_pred());
            proof {
                lemma_count_while(s, i, alnum_pred());
            }
            let text = s.subrange(i, i + w);
            let up = upper_chars(text);
            let t = if is_keyword_text(up) {
                TokenModel::Keyword(up)
            } else if is_logical_text(up) {
                TokenModel::LogicalOperator(up)
            } else {
                TokenModel::Identifier(text)
            };
            with_token(t, spec_tokenize_at(s, i + w))
        } else if c == '\'' {
            let n = count_while(s, i + 1, nonquote_pred());
            proof {
                lemma_count_while(s, i + 1, nonquote_pred());
            }
            let text = s.subrange(i + 1, i + 1 + n);
            let next = if i + 1 + n < s.len() {
                i + n + 2
            } else {
                i + n + 1
            };
            with_token(TokenModel::StringLiteral(text), spec_tokenize_at(s, next))
        } else if c == '=' {
            with_token(TokenModel::ComparisonOperator(seq!['=']), spec_tokenize_at(s, i + 1))
        } else if c == '>' || c == '<' {
            if i + 1 < s.len() && s[i + 1] == '=' {
                with_token(
                    TokenModel::ComparisonOperator(s.subrange(i, i + 2)),
                    spec_tokenize_at(s, i + 2),
                )
            } else {
                with_token(TokenModel::ComparisonOperator(seq![c]), spec_tokenize_at(s, i + 1))
            }
        } else if is_symbol_char(c) {
            with_token(TokenModel::Symbol(c), spec_tokenize_at(s, i + 1))
        } else {
            None
        }
    }
}

/// The tokens of a whole command text, or `None` on the first unrecognized
/// character.
pub open spec fn spec_tokenize(s: Seq<char>) -> Option<Seq<TokenModel>> {
    spec_tokenize_at(s, 0)
}

/// The index just past the digit run starting at `i`.
fn scan_digits(cs: &Vec<char>, i: usize) -> (j: usize)
    requires
        i <= cs@.len(),
    ensures
        j == i + count_while(cs@, i as int, digit_pred()),
        i <= j <= cs@.len(),
{
    let mut j = i;
    while j < cs.len() && digit_char(cs[j])
        invariant
            i <= j <= cs@.len(),
            count_while(cs@, i as int, digit_pred()) == (j - i) + count_while(
                cs@,
                j as int,
                digit_pred(),
            ),
        decreases cs@.len() - j,
    {
        j += 1;
    }
    j
}

/// The index just past the alphanumeric run starting at `i`.
fn scan_alnum(cs: &Vec<char>, i: usize) -> (j: usize)
    requires
        i <= cs@.len(),
    ensures
        j == i + count_while(cs@, i as int, alnum_pred()),
        i <= j <= cs@.len(),
{
    let mut j = i;
    while j < cs.len() && alnum_char(cs[j])
        invariant
            i <= j <= cs@.len(),
            count_while(cs@, i as int, alnum_pred()) == (j - i) + count_while(
                cs@,
                j as int,
                alnum_pred(),
            ),
        decreases cs@.len() - j,
    {
        j += 1;
    }
    j
}

/// The index just past the run of characters other than a single quote
/// starting at `i`.
fn scan_nonquote(cs: &Vec<char>, i: usize) -> (j: usize)
    requires
        i <= cs@.len(),
    ensures
        j == i + count_while(cs@, i as int, nonquote_pred()),
        i <= j <= cs@.len(),
{
    let mut j = i;
    while j < cs.len() && cs[j] != '\''
        invariant
            i <= j <= cs@.len(),
            count_while(cs@, i as int, nonquote_pred()) == (j - i) + count_while(
                cs@,
                j as int,
                nonquote_pred(),
            ),
        decreases cs@.len() - j,
    {
        j += 1;
    }
    j
}

/// A copy of the characters from `i` (inclusive) to `j` (exclusive).
fn vec_range(cs: &Vec<char>, i: usize, j: usize) -> (r: Vec<char>)
    requires
        i <= j <= cs@.len(),
    ensures
        r@ == cs@.subrange(i as int, j as int),
{
    let mut r: Vec<char> = Vec::new();
    let mut k = i;
    while k < j
        invariant
            i <= k <= j <= cs@.len(),
            r@ == cs@.subrange(i as int, k as int),
        decreases j - k,
    {
        r.push(cs[k]);
        k += 1;
        proof {
            assert(r@ =~= cs@.subrange(i as int, k as int));
        }
    }
    r
}

/// The text from `i` (inclusive) to `j` (exclusive), as a string.
fn string_range(cs: &Vec<char>, i: usize, j: usize) -> (r: String)
    requires
        i <= j <= cs@.len(),
    ensures
        r@ == cs@.subrange(i as int, j as int),
{
    string_from_chars(&vec_range(cs, i, j))
}

/// Whether an upper-cased word is one of the keywords.
fn keyword_text(s: &str) -> (r: bool)
    ensures
        r == is_keyword_text(s@),
{
    str_eq_str(s, "INSERT") || str_eq_str(s, "UPDATE") || str_eq_str(s, "DELETE") || str_eq_str(
        s,
        "SELECT",
    ) || str_eq_str(s, "FROM") || str_eq_str(s, "WHERE") || str_eq_str(s, "SET") || str_eq_str(
        s,
        "INTO",
    ) || str_eq_str(s, "VALUES") || str_eq_str(s, "ORDER") || str_eq_str(s, "BY") || str_eq_str(
        s,
        "DESC",
    )
}

/// Whether an upper-cased word is one of the logical operators.
fn logical_text(s: &str) -> (r: bool)
    ensures
        r == is_logical_text(s@),
{
    str_eq_str(s, "AND") || str_eq_str(s, "OR") || str_eq_str(s, "NOT")
}

/// Scans the token that starts with a digit: an integer literal, unless a
/// letter follows the digits directly, in which case the whole run is an
/// identifier.  Returns the token and the index just past it.
pub fn tokenize_integer_or_identifier_starting_with_integer(cs: &Vec<char>, i: usize) -> (r: (
    Token,
    usize,
))
    requires
        i < cs@.len(),
        is_digit_char(cs@[i as int]),
    ensures
        ({
            let d = count_while(cs@, i as int, digit_pred());
            if i + d < cs@.len() && is_alpha_char(cs@[i + d]) {
                let a = count_while(cs@, i + d, alnum_pred());
                r.0@ == TokenModel::Identifier(cs@.subrange(i as int, i + d + a)) && r.1 == i + d
                    + a
            } else {
                r.0@ == TokenModel::IntegerLiteral(cs@.subrange(i as int, i + d)) && r.1 == i + d
            }
        }),
        i < r.1 <= cs@.len(),
{
    proof {
        lemma_count_while(cs@, i as int, digit_pred());
    }
    let d_end = scan_digits(cs, i);
    if d_end < cs.len() && alpha_char(cs[d_end]) {
        proof {
            lemma_count_while(cs@, d_end as int, alnum_pred());
        }
        let a_end = scan_alnum(cs, d_end);
        (Token::Identifier(string_range(cs, i, a_end)), a_end)
    } else {
        (Token::IntegerLiteral(string_range(cs, i, d_end)), d_end)
    }
}

/// Scans the token that starts with a letter: a keyword or logical operator
/// (matched case-insensitively, kept upper-cased) or an identifier (casing
/// preserved).  Returns the token and the index just past it.
pub fn tokenize_word(cs: &Vec<char>, i: usize) -> (r: (Token, usize))
    requires
        i < cs@.len(),
        is_alpha_char(cs@[i as int]),
    ensures
        ({
            let w = count_while(cs@, i as int, alnum_pred());
            let text = cs@.subrange(i as int, i + w);
            let up = upper_chars(text);
            r.1 == i + w && r.0@ == (if is_keyword_text(up) {
                TokenModel::Keyword(up)
            } else if is_logical_text(up) {
                TokenModel::LogicalOperator(up)
            } else {
                TokenModel::Identifier(text)
            })
        }),
        i < r.1 <= cs@.len(),
{
    proof {
        lemma_count_while(cs@, i as int, alnum_pred());
    }
    let w_end = scan_alnum(cs, i);
    let word = vec_range(cs, i, w_end);
    let upper = string_from_chars(&upper_vec(&word));
    let t = if keyword_text(upper.as_str()) {
        Token::Keyword(upper)
    } else if logical_text(upper.as_str()) {
        Token::LogicalOperator(upper)
    } else {
        Token::Identifier(string_from_chars(&word))
    };
    (t, w_end)
}

/// Scans a single-quoted string literal starting at the opening quote.
/// The closing quote is consumed when present; an unterminated literal
/// keeps whatever was collected.  Returns the token and the index just
/// past it.
pub fn tokenize_string(cs: &Vec<char>, i: usize) -> (r: (Token, usize))
    requires
        i < cs@.len(),
        cs@[i as int] == '\'',
    ensures
        ({
            let n = count_while(cs@, i + 1, nonquote_pred());
            r.0@ == TokenModel::StringLiteral(cs@.subrange(i + 1, i + 1 + n)) && r.1 == (if i + 1
                + n < cs@.len() {
                i + n + 2
            } else {
                i + n + 1
            })
        }),
        i < r.1 <= cs@.len(),
{
    proof {
        lemma_count_while(cs@, i + 1, nonquote_pred());
    }
    let len = cs.len();
    let q_end = scan_nonquote(cs, i + 1);
    let text = string_range(cs, i + 1, q_end);
    if q_end < len {
        (Token::StringLiteral(text), q_end + 1)
    } else {
        (Token::StringLiteral(text), q_end)
    }
}

/// Scans a comparison operator: `=` alone, or `<` and `>` optionally
/// followed by `=`.  Returns the token and the index just past it.
pub fn tokenize_comparison_operator(cs: &Vec<char>, i: usize) -> (r: (Token, usize))
    requires
        i < cs@.len(),
        cs@[i as int] == '=' || cs@[i as int] == '<' || cs@[i as int] == '>',
    ensures
        ({
            let c = cs@[i as int];
            if c == '=' {
                r.0@ == TokenModel::ComparisonOperator(seq!['=']) && r.1 == i + 1
            } else if i + 1 < cs@.len() && cs@[i + 1] == '=' {
                r.0@ == TokenModel::ComparisonOperator(cs@.subrange(i as int, i + 2)) && r.1 == i
                    + 2
            } else {
                r.0@ == TokenModel::ComparisonOperator(seq![c]) && r.1 == i + 1
            }
        }),
        i < r.1 <= cs@.len(),
{
    let len = cs.len();
    let c = cs[i];
    if c == '=' {
        let text = String::from_str("=");
        proof {
            reveal_strlit("=");
            assert(text@ =~= seq!['=']);
        }
        (Token::ComparisonOperator(text), i + 1)
    } else if i + 1 < len && cs[i + 1] == '=' {
        (Token::ComparisonOperator(string_range(cs, i, i + 2)), i + 2)
    } else {
        let mut one: Vec<char> = Vec::new();
        one.push(c);
        let text = string_from_chars(&one);
        proof {
            assert(text@ =~= seq![c]);
        }
        (Token::ComparisonOperator(text), i + 1)
    }
}

/// Tokenizes a whole command text.  The result is exactly what
/// [`spec_tokenize`] describes: `Ok` with the scanned tokens when every
/// character is recognized, and a syntax error otherwise.
pub fn tokenize(input: &str) -> (r: Result<Vec<Token>, CustomError>)
    ensures
        (match r {
            Ok(ts) => spec_tokenize(input@) == Some(ts.deep_view()),
            Err(e) => spec_tokenize(input@) is None && e is InvalidSyntax,
        }),
{
    let cs = chars_of(input);
    let mut tokens: Vec<Token> = Vec::new();
    let mut i: usize = 0;
    while i < cs.len()
        invariant
            cs@ == input@,
            i <= cs@.len(),
            spec_tokenize(input@) == with_tokens(
                tokens.deep_view(),
                spec_tokenize_at(cs@, i as int),
            ),
        decreases cs@.len() - i,
    {
        let ghost pre = tokens.deep_view();
        let ghost i0 = i as int;
        let c = cs[i];
        if space_char(c) {
            i += 1;
        } else if digit_char(c) {
            let (t, j) = tokenize_integer_or_identifier_starting_with_integer(&cs, i);
            proof {
                lemma_with_tokens_step(pre, t@, spec_tokenize_at(cs@, j as int));
            }
            tokens.push(t);
            proof {
                assert(tokens.deep_view() =~= pre.push(t@));
            }
            i = j;
        } else if alpha_char(c) {
            let (t, j) = tokenize_word(&cs, i);
            proof {
                lemma_with_tokens_step(pre, t@, spec_tokenize_at(cs@, j as int));
            }
            tokens.push(t);
            proof {
                assert(tokens.deep_view() =~= pre.push(t@));
            }
            i = j;
        } else if c == '\'' {
            let (t, j) = tokenize_string(&cs, i);
            proof {
                lemma_with_tokens_step(pre, t@, spec_tokenize_at(cs@, j as int));
            }
            tokens.push(t);
            proof {
                assert(tokens.deep_view() =~= pre.push(t@));
            }
            i = j;
        } else if c == '=' || c == '>' || c == '<' {
            let (t, j) = tokenize_comparison_operator(&cs, i);
            proof {
                lemma_with_tokens_step(pre, t@, spec_tokenize_at(cs@, j as int));
            }
            tokens.push(t);
            proof {
                assert(tokens.deep_view() =~= pre.push(t@));
            }
            i = j;
        } else if c == ',' || c == '(' || c == ')' || c == ';' || c == '*' {
            let t = Token::Symbol(c);
            proof {
                lemma_with_tokens_step(pre, t@, spec_tokenize_at(cs@, i0 + 1));
            }
            tokens.push(t);
            proof {
                assert(tokens.deep_view() =~= pre.push(t@));
            }
            i += 1;
        } else {
            let mut message = String::from_str("Invalid syntax near: ");
            let mut one: Vec<char> = Vec::new();
            one.push(c);
            message.append(string_from_chars(&one).as_str());
            return Err(CustomError::InvalidSyntax { message });
        }
    }
    proof {
        lemma_with_tokens_empty(tokens.deep_view());
    }
    Ok(tokens)
}

} // verus!

verus! {

/// The canonical rendering of one token: its text, a string literal
/// re-quoted, a symbol as its character.
pub open spec fn render_token(t: TokenModel) -> Seq<char> {
    match t {
        TokenModel::Keyword(s) => s,
        TokenModel::LogicalOperator(s) => s,
        TokenModel::ComparisonOperator(s) => s,
        TokenModel::Identifier(s) => s,
        TokenModel::StringLiteral(s) => seq!['\''] + s + seq!['\''],
        TokenModel::IntegerLiteral(s) => s,
        TokenModel::Symbol(c) => seq![c],
    }
}

/// The canonical rendering of a token sequence: each token followed by
/// one space.
pub open spec fn render_tokens(ts: Seq<TokenModel>) -> Seq<char>
    decreases ts.len(),
{
    if ts.len() == 0 {
        Seq::empty()
    } else {
        render_token(ts[0]) + seq![' '] + render_tokens(ts.drop_first())
    }
}

/// A token the tokenizer itself could have produced: keywords and logical
/// operators from their sets, comparison operators the scanner emits,
/// identifiers that are alphanumeric (a digit-initial one holding a
/// letter, a letter-initial one not spelling a keyword), quote-free
/// string literals, non-empty digit runs, and the symbol characters.
pub open spec fn wf_token(t: TokenModel) -> bool {
    match t {
        TokenModel::Keyword(s) => is_keyword_text(s),
        TokenModel::LogicalOperator(s) => is_logical_text(s),
        TokenModel::ComparisonOperator(s) => s == seq!['='] || s == seq!['<'] || s == seq!['>']
            || s == seq!['<', '='] || s == seq!['>', '='],
        TokenModel::Identifier(s) => s.len() > 0 && (forall|j: int|
            0 <= j < s.len() ==> is_alnum_char(#[trigger] s[j])) && (is_digit_char(s[0])
            ==> exists|j: int| 0 <= j < s.len() && is_alpha_char(#[trigger] s[j])) && (
        is_alpha_char(s[0]) ==> !is_keyword_text(upper_chars(s)) && !is_logical_text(
            upper_chars(s),
        )),
        TokenModel::StringLiteral(s) => forall|j: int| 0 <= j < s.len() ==> #[trigger] s[j] != '\'',
        TokenModel::IntegerLiteral(s) => s.len() > 0 && (forall|j: int|
            0 <= j < s.len() ==> is_digit_char(#[trigger] s[j])),
        TokenModel::Symbol(c) => is_symbol_char(c),
    }
}

/// A run known character by character has exactly that length.
proof fn lemma_count_while_is(s: Seq<char>, i: int, n: int, p: spec_fn(char) -> bool)
    requires
        0 <= i,
        0 <= n,
        i + n <= s.len(),
        forall|j: int| i <= j < i + n ==> p(#[trigger] s[j]),
        i + n < s.len() ==> !p(s[i + n]),
    ensures
        count_while(s, i, p) == n,
    decreases n,
{
    if n > 0 {
        lemma_count_while_is(s, i + 1, n - 1, p);
    }
}

/// Keywords and logical operators are non-empty upper-case letter runs,
/// left unchanged by upper-casing.
proof fn lemma_keyword_chars(s: Seq<char>)
    requires
        is_keyword_text(s) || is_logical_text(s),
    ensures
        s.len() > 0,
        is_alpha_char(s[0]),
        forall|j: int| 0 <= j < s.len() ==> is_alnum_char(#[trigger] s[j]),
        upper_chars(s) == s,
{
    reveal_strlit("INSERT");
    reveal_strlit("UPDATE");
    reveal_strlit("DELETE");
    reveal_strlit("SELECT");
    reveal_strlit("FROM");
    reveal_strlit("WHERE");
    reveal_strlit("SET");
    reveal_strlit("INTO");
    reveal_strlit("VALUES");
    reveal_strlit("ORDER");
    reveal_strlit("BY");
    reveal_strlit("DESC");
    reveal_strlit("AND");
    reveal_strlit("OR");
    reveal_strlit("NOT");
    assert forall|j: int| 0 <= j < s.len() implies is_alnum_char(#[trigger] s[j]) && !('a'
        <= s[j] && s[j] <= 'z') by {}
    assert(upper_chars(s) =~= s);
}

/// Scanning is unaffected by what stands before the scan position: the
/// tokens of `pre + tail` from `pre`'s end are the tokens of `tail`.
proof fn lemma_tokenize_shift(pre: Seq<char>, tail: Seq<char>, i: int)
    requires
        0 <= i <= tail.len(),
    ensures
        spec_tokenize_at(pre + tail, pre.len() + i, ) == spec_tokenize_at(tail, i),
    decreases tail.len() - i,
{
    let full = pre + tail;
    let pl = pre.len() as int;
    if i == tail.len() {
    } else {
        let c = tail[i];
        assert(full[pl + i] == c);
        assert forall|j: int| 0 <= j < tail.len() implies full[pl + j] == #[trigger] tail[j] by {}
        if is_space_char(c) {
            lemma_tokenize_shift(pre, tail, i + 1);
        } else if is_digit_char(c) {
            lemma_count_while(tail, i, digit_pred());
            let d = count_while(tail, i, digit_pred());
            lemma_count_while_is(full, pl + i, d, digit_pred());
            if i + d < tail.len() && is_alpha_char(tail[i + d]) {
                lemma_count_while(tail, i + d, alnum_pred());
                let a = count_while(tail, i + d, alnum_pred());
                lemma_count_while_is(full, pl + i + d, a, alnum_pred());
                assert(full.subrange(pl + i, pl + i + d + a) =~= tail.subrange(i, i + d + a));
                lemma_tokenize_shift(pre, tail, i + d + a);
            } else {
                assert(full.subrange(pl + i, pl + i + d) =~= tail.subrange(i, i + d));
                lemma_tokenize_shift(pre, tail, i + d);
            }
        } else if is_alpha_char(c) {
            lemma_count_while(tail, i, alnum_pred());
            let w = count_while(tail, i, alnum_pred());
            lemma_count_while_is(full, pl + i, w, alnum_pred());
            assert(full.subrange(pl + i, pl + i + w) =~= tail.subrange(i, i + w));
            lemma_tokenize_shift(pre, tail, i + w);
        } else if c == '\'' {
            lemma_count_while(tail, i + 1, nonquote_pred());
            let n = count_while(tail, i + 1, nonquote_pred());
            lemma_count_while_is(full, pl + i + 1, n, nonquote_pred());
            assert(full.subrange(pl + i + 1, pl + i + 1 + n) =~= tail.subrange(i + 1, i + 1 + n));
            if i + 1 + n < tail.len() {
                lemma_tokenize_shift(pre, tail, i + n + 2);
            } else {
                lemma_tokenize_shift(pre, tail, i + n + 1);
            }
        } else if c == '=' {
            lemma_tokenize_shift(pre, tail, i + 1);
        } else if c == '>' || c == '<' {
            if i + 1 < tail.len() && tail[i + 1] == '=' {
                assert(full.subrange(pl + i, pl + i + 2) =~= tail.subrange(i, i + 2));
                lemma_tokenize_shift(pre, tail, i + 2);
            } else {
                lemma_tokenize_shift(pre, tail, i + 1);
            }
        } else if is_symbol_char(c) {
            lemma_tokenize_shift(pre, tail, i + 1);
        } else {
        }
    }
}

/// Scanning the rendering of one well-formed token yields that token and
/// stops right after it.
proof fn lemma_tokenize_head(t: TokenModel, rest: Seq<char>)
    requires
        wf_token(t),
    ensures
        spec_tokenize_at(render_token(t) + seq![' '] + rest, 0) == with_token(
            t,
            spec_tokenize_at(
                render_token(t) + seq![' '] + rest,
                render_token(t).len() as int + 1,
            ),
        ),
{
    let full = render_token(t) + seq![' '] + rest;
    let rl = render_token(t).len() as int;
    assert(full[rl] == ' ');
    match t {
        TokenModel::Keyword(s) => {
            lemma_keyword_chars(s);
            assert forall|j: int| 0 <= j < s.len() implies full[j] == #[trigger] s[j] by {}
            assert(full[0] == s[0]);
            assert(!is_space_char(s[0]) && !is_digit_char(s[0]));
            lemma_count_while_is(full, 0, s.len() as int, alnum_pred());
            assert(full.subrange(0, s.len() as int) =~= s);
        },
        TokenModel::LogicalOperator(s) => {
            lemma_keyword_chars(s);
            assert forall|j: int| 0 <= j < s.len() implies full[j] == #[trigger] s[j] by {}
            assert(full[0] == s[0]);
            lemma_count_while_is(full, 0, s.len() as int, alnum_pred());
            assert(full.subrange(0, s.len() as int) =~= s);
            assert(!is_keyword_text(s)) by {
                reveal_strlit("INSERT");
                reveal_strlit("UPDATE");
                reveal_strlit("DELETE");
                reveal_strlit("SELECT");
                reveal_strlit("FROM");
                reveal_strlit("WHERE");
                reveal_strlit("SET");
                reveal_strlit("INTO");
                reveal_strlit("VALUES");
                reveal_strlit("ORDER");
                reveal_strlit("BY");
                reveal_strlit("DESC");
                reveal_strlit("AND");
                reveal_strlit("OR");
                reveal_strlit("NOT");
            }
        },
        TokenModel::ComparisonOperator(s) => {
            assert forall|j: int| 0 <= j < s.len() implies full[j] == #[trigger] s[j] by {}
            assert(full[0] == s[0]);
            if s == seq!['<', '='] || s == seq!['>', '='] {
                assert(full[1] == '=');
                assert(full.subrange(0, 2) =~= s);
            } else {
                assert(s.len() == 1);
                assert(full[1] == ' ');
                assert(seq![s[0]] =~= s);
            }
        },
        TokenModel::Identifier(s) => {
            assert forall|j: int| 0 <= j < s.len() implies full[j] == #[trigger] s[j] by {}
            assert(full[0] == s[0]);
            if is_digit_char(s[0]) {
                let j0 = choose|j: int| 0 <= j < s.len() && is_alpha_char(#[trigger] s[j]);
                let d = count_while(full, 0, digit_pred());
                lemma_count_while(full, 0, digit_pred());
                assert(d <= s.len()) by {
                    if d > s.len() {
                        assert(is_digit_char(full[rl]));
                    }
                }
                assert(d < s.len()) by {
                    if d == s.len() {
                        assert(is_digit_char(s[j0]));
                    }
                }
                assert(is_alnum_char(s[d]) && !is_digit_char(s[d]));
                assert(is_alpha_char(full[d]));
                lemma_count_while_is(full, d, s.len() - d, alnum_pred());
                assert(full.subrange(0, d + (s.len() - d)) =~= s);
            } else {
                assert(is_alpha_char(s[0]));
                lemma_count_while_is(full, 0, s.len() as int, alnum_pred());
                assert(full.subrange(0, s.len() as int) =~= s);
            }
        },
        TokenModel::StringLiteral(s) => {
            assert(full[0] == '\'');
            assert forall|j: int| 1 <= j < 1 + s.len() implies #[trigger] full[j] != '\'' by {
                assert(full[j] == s[j - 1]);
            }
            assert(full[1 + s.len() as int] == '\'');
            lemma_count_while_is(full, 1, s.len() as int, nonquote_pred());
            assert(full.subrange(1, 1 + s.len() as int) =~= s);
            assert(1 + s.len() < full.len());
        },
        TokenModel::IntegerLiteral(s) => {
            assert forall|j: int| 0 <= j < s.len() implies full[j] == #[trigger] s[j] by {}
            assert(full[0] == s[0]);
            lemma_count_while_is(full, 0, s.len() as int, digit_pred());
            assert(!is_alpha_char(full[s.len() as int]));
            assert(full.subrange(0, s.len() as int) =~= s);
        },
        TokenModel::Symbol(c) => {
            assert(full[0] == c);
            assert(!is_space_char(c) && !is_digit_char(c) && !is_alpha_char(c) && c != '\'' && c
                != '=' && c != '>' && c != '<');
        },
    }
    assert(spec_tokenize_at(full, rl) == spec_tokenize_at(full, rl + 1));
    assert(spec_tokenize_at(full, 0) == with_token(t, spec_tokenize_at(full, rl)));
}

/// Tokenizer stability: re-tokenizing the canonical rendering of any
/// well-formed token sequence yields the same sequence back.
pub proof fn lemma_tokenize_render_round_trip(ts: Seq<TokenModel>)
    requires
        forall|i: int| 0 <= i < ts.len() ==> wf_token(#[trigger] ts[i]),
    ensures
        spec_tokenize(render_tokens(ts)) == Some(ts),
    decreases ts.len(),
{
    if ts.len() == 0 {
        assert(spec_tokenize_at(render_tokens(ts), 0) == Some(Seq::<TokenModel>::empty()));
        assert(Seq::<TokenModel>::empty() =~= ts);
    } else {
        let t = ts[0];
        let tail_ts = ts.drop_first();
        assert(forall|i: int| 0 <= i < tail_ts.len() ==> wf_token(#[trigger] tail_ts[i])) by {
            assert forall|i: int| 0 <= i < tail_ts.len() implies wf_token(
                #[trigger] tail_ts[i],
            ) by {
                assert(tail_ts[i] == ts[i + 1]);
            }
        }
        lemma_tokenize_render_round_trip(tail_ts);
        let full = render_tokens(ts);
        let rl = render_token(t).len() as int;
        assert(full == render_token(t) + seq![' '] + render_tokens(tail_ts));
        lemma_tokenize_head(t, render_tokens(tail_ts));
        assert((render_token(t) + seq![' ']) + render_tokens(tail_ts) =~= full);
        lemma_tokenize_shift(render_token(t) + seq![' '], render_tokens(tail_ts), 0);
        assert(spec_tokenize_at(full, rl + 1) == spec_tokenize_at(render_tokens(tail_ts), 0));
        assert(seq![t] + tail_ts =~= ts);
    }
}

} // verus!
