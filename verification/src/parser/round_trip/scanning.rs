//! The text of a program is scanned as the tokens of the program.

use vstd::prelude::*;
use crate::lexer::{
    decimal_value, digit_value, in_class, is_digit, is_letter, is_space, run_end,
    single_char_token, token_at, tokens_from, CharClass,
};
use crate::parser::ast::{
    expression_text, expressions_text, literal_text, names_text, pair_text, pairs_text,
    statement_text, statements_text, ExpressionModel, LiteralModel, StatementModel,
};
use crate::parser::round_trip::tokens::{
    block_tokens, expression_tokens, expressions_tokens, names_tokens, pair_tokens, pairs_tokens,
    statement_tokens, statements_tokens,
};
use crate::parser::round_trip::{
    block_parses_back, ends_with_name, ends_with_number, first_token, is_identifier,
    is_prefix_operator, may_follow, parses_back, statement_first_token, statement_parses_back,
};
use crate::parser::syntax::is_infix_operator;
use crate::text::{bool_text, decimal, digit_char, signed_decimal};
use crate::token::{keyword_or_ident, token_text, TokenModel};

verus! {

/// The stretch of `s` from `p` to `q` is scanned as the tokens `ts`: the
/// tokens from `p` on are `ts` and then the tokens from `q` on.
pub open spec fn scans(s: Seq<char>, p: int, q: int, ts: Seq<TokenModel>) -> bool {
    &&& 0 <= p <= q <= s.len()
    &&& tokens_from(s, p) == ts + tokens_from(s, q)
}

/// Two stretches that are scanned one behind the other are scanned as one.
pub proof fn lemma_scans_both(
    s: Seq<char>,
    p: int,
    q: int,
    r: int,
    first: Seq<TokenModel>,
    second: Seq<TokenModel>,
)
    requires
        scans(s, p, q, first),
        scans(s, q, r, second),
    ensures
        scans(s, p, r, first + second),
{
    assert(first + (second + tokens_from(s, r)) =~= (first + second) + tokens_from(s, r));
}

/// A stretch of nothing is scanned as no tokens.
pub proof fn lemma_scans_nothing(s: Seq<char>, p: int)
    requires
        0 <= p <= s.len(),
    ensures
        scans(s, p, p, Seq::empty()),
{
    assert(Seq::<TokenModel>::empty() + tokens_from(s, p) =~= tokens_from(s, p));
}

/// A digit's character writes the digit.
proof fn lemma_digit_char(d: int)
    requires
        0 <= d <= 9,
    ensures
        digit_value(digit_char(d)) == d,
        is_digit(digit_char(d)),
{
}

/// The decimal numeral of a number is made of digits and writes the number.
pub proof fn lemma_decimal_value_of_decimal(n: nat)
    ensures
        decimal(n).len() >= 1,
        forall|i: int| 0 <= i < decimal(n).len() ==> is_digit(#[trigger] decimal(n)[i]),
        decimal_value(decimal(n)) == n,
    decreases n,
{
    if n < 10 {
        lemma_digit_char(n as int);
        let text = seq![digit_char(n as int)];
        assert(decimal(n) == text);
        assert(text.drop_last() =~= Seq::<char>::empty());
        assert(decimal_value(text.drop_last()) == 0);
        assert(text.last() == digit_char(n as int));
    } else {
        lemma_decimal_value_of_decimal(n / 10);
        lemma_digit_char((n % 10) as int);
        let head = decimal(n / 10);
        let text = head.push(digit_char((n % 10) as int));
        assert(decimal(n) == text);
        assert(text.drop_last() =~= head);
        assert(text.last() == digit_char((n % 10) as int));
        assert forall|i: int| 0 <= i < text.len() implies is_digit(#[trigger] text[i]) by {
            if i < head.len() {
                assert(text[i] == head[i]);
            }
        }
    }
}

/// A run of characters of one class that is followed by a character of
/// another, or by the end of the text, ends there.
pub proof fn lemma_run_end_exact(s: Seq<char>, p: int, q: int, k: CharClass)
    requires
        0 <= p <= q <= s.len(),
        forall|i: int| p <= i < q ==> in_class(k, #[trigger] s[i]),
        q == s.len() || !in_class(k, s[q]),
    ensures
        run_end(s, p, k) == q,
    decreases q - p,
{
    if p < q {
        lemma_run_end_exact(s, p + 1, q, k);
    }
}

/// The tokens from a position on are the token there and the tokens behind
/// it.
pub proof fn lemma_tokens_step(s: Seq<char>, p: int)
    requires
        0 <= p <= s.len(),
        !(token_at(s, p).0 is Eof),
    ensures
        tokens_from(s, p) == seq![token_at(s, p).0] + tokens_from(s, token_at(s, p).1),
{
}

/// At the end of a text there are no tokens.
pub proof fn lemma_tokens_at_end(s: Seq<char>)
    ensures
        tokens_from(s, s.len() as int) == Seq::<TokenModel>::empty(),
{
    assert(run_end(s, s.len() as int, CharClass::Space) == s.len());
}

/// Blanks before a token do not change the tokens.
pub proof fn lemma_skip_space(s: Seq<char>, p: int)
    requires
        0 <= p < s.len(),
        is_space(s[p]),
    ensures
        tokens_from(s, p) == tokens_from(s, p + 1),
        scans(s, p, p + 1, Seq::empty()),
{
    assert(run_end(s, p, CharClass::Space) == run_end(s, p + 1, CharClass::Space));
    assert(token_at(s, p) == token_at(s, p + 1));
    assert(Seq::<TokenModel>::empty() + tokens_from(s, p + 1) =~= tokens_from(s, p + 1));
}

/// Where a stretch of a sequence is made of four parts, each part stands at
/// its place in the sequence.
pub proof fn lemma_four_parts<T>(s: Seq<T>, p: int, a: Seq<T>, b: Seq<T>, c: Seq<T>, d: Seq<T>)
    requires
        0 <= p,
        p + a.len() + b.len() + c.len() + d.len() <= s.len(),
        s.subrange(p, p + a.len() + b.len() + c.len() + d.len()) == a + b + c + d,
    ensures
        s.subrange(p, p + a.len()) == a,
        s.subrange(p + a.len(), p + a.len() + b.len()) == b,
        s.subrange(p + a.len() + b.len(), p + a.len() + b.len() + c.len()) == c,
        s.subrange(
            p + a.len() + b.len() + c.len(),
            p + a.len() + b.len() + c.len() + d.len(),
        ) == d,
{
    let n = a.len() + b.len() + c.len() + d.len();
    let part = s.subrange(p, p + n);
    let whole = a + b + c + d;
    assert forall|i: int| 0 <= i < n implies s[p + i] == whole[i] by {
        assert(s[p + i] == part[i]);
    }
    assert(s.subrange(p, p + a.len()) =~= a) by {
        assert forall|i: int| 0 <= i < a.len() implies s[p + i] == a[i] by {
            assert(whole[i] == a[i]);
        }
    }
    assert(s.subrange(p + a.len(), p + a.len() + b.len()) =~= b) by {
        assert forall|i: int| 0 <= i < b.len() implies s[p + a.len() + i] == b[i] by {
            assert(whole[a.len() + i] == b[i]);
        }
    }
    assert(s.subrange(p + a.len() + b.len(), p + a.len() + b.len() + c.len()) =~= c) by {
        assert forall|i: int| 0 <= i < c.len() implies s[p + a.len() + b.len() + i] == c[i] by {
            assert(whole[a.len() + b.len() + i] == c[i]);
        }
    }
    assert(s.subrange(p + a.len() + b.len() + c.len(), p + n) =~= d) by {
        assert forall|i: int| 0 <= i < d.len() implies s[p + a.len() + b.len() + c.len() + i]
            == d[i] by {
            assert(whole[a.len() + b.len() + c.len() + i] == d[i]);
        }
    }
}

/// Where a stretch of a sequence is made of two parts, each part stands at
/// its place in the sequence.
pub proof fn lemma_two_parts<T>(s: Seq<T>, p: int, a: Seq<T>, b: Seq<T>)
    requires
        0 <= p,
        p + a.len() + b.len() <= s.len(),
        s.subrange(p, p + a.len() + b.len()) == a + b,
    ensures
        s.subrange(p, p + a.len()) == a,
        s.subrange(p + a.len(), p + a.len() + b.len()) == b,
{
    assert(a + b + Seq::<T>::empty() + Seq::<T>::empty() =~= a + b);
    lemma_four_parts(s, p, a, b, Seq::empty(), Seq::empty());
}

/// A stretch of one element is the element there.
pub proof fn lemma_one_char<T>(s: Seq<T>, p: int, c: T)
    requires
        0 <= p < s.len(),
        s.subrange(p, p + 1) == seq![c],
    ensures
        s[p] == c,
{
    assert(s.subrange(p, p + 1)[0] == s[p]);
}

/// The first element of a stretch is the element where the stretch starts.
pub proof fn lemma_first_of_part<T>(s: Seq<T>, p: int, part: Seq<T>)
    requires
        0 <= p,
        part.len() >= 1,
        p + part.len() <= s.len(),
        s.subrange(p, p + part.len()) == part,
    ensures
        s[p] == part[0],
{
    assert(s.subrange(p, p + part.len())[0] == s[p]);
}

/// Whether a character is a token by itself wherever it stands: a
/// parenthesis, a bracket, a brace, a comma, a semicolon or a colon.
pub open spec fn is_delimiter(c: char) -> bool {
    c == '(' || c == ')' || c == '[' || c == ']' || c == '{' || c == '}' || c == ',' || c == ';'
        || c == ':'
}

/// The tokens of a text that is made of blanks and delimiters.
pub open spec fn delimiter_tokens(text: Seq<char>) -> Seq<TokenModel>
    decreases text.len(),
{
    if text.len() == 0 {
        Seq::empty()
    } else if is_space(text[0]) {
        delimiter_tokens(text.drop_first())
    } else {
        seq![single_char_token(text[0])] + delimiter_tokens(text.drop_first())
    }
}

/// A delimiter is scanned as itself.
pub proof fn lemma_scan_delimiter(s: Seq<char>, p: int)
    requires
        0 <= p < s.len(),
        is_delimiter(s[p]),
    ensures
        scans(s, p, p + 1, seq![single_char_token(s[p])]),
{
    assert(run_end(s, p, CharClass::Space) == p);
    lemma_tokens_step(s, p);
}

/// A text of blanks and delimiters is scanned as its delimiters.
pub proof fn lemma_scan_delimiters(s: Seq<char>, p: int, text: Seq<char>)
    requires
        0 <= p,
        p + text.len() <= s.len(),
        s.subrange(p, p + text.len()) == text,
        forall|i: int| 0 <= i < text.len() ==> is_space(#[trigger] text[i]) || is_delimiter(text[i]),
    ensures
        scans(s, p, p + text.len(), delimiter_tokens(text)),
    decreases text.len(),
{
    if text.len() == 0 {
        lemma_scans_nothing(s, p);
    } else {
        let rest = text.drop_first();
        lemma_first_of_part(s, p, text);
        assert(s.subrange(p + 1, p + 1 + rest.len()) =~= rest) by {
            assert forall|i: int| 0 <= i < rest.len() implies s[p + 1 + i] == rest[i] by {
                assert(s.subrange(p, p + text.len())[1 + i] == s[p + 1 + i]);
            }
        }
        assert forall|i: int| 0 <= i < rest.len() implies is_space(#[trigger] rest[i])
            || is_delimiter(rest[i]) by {
            assert(rest[i] == text[i + 1]);
        }
        lemma_scan_delimiters(s, p + 1, rest);
        if is_space(text[0]) {
            lemma_skip_space(s, p);
            lemma_scans_both(s, p, p + 1, p + text.len(), Seq::empty(), delimiter_tokens(rest));
            assert(Seq::<TokenModel>::empty() + delimiter_tokens(rest) =~= delimiter_tokens(rest));
        } else {
            lemma_scan_delimiter(s, p);
            lemma_scans_both(
                s,
                p,
                p + 1,
                p + text.len(),
                seq![single_char_token(text[0])],
                delimiter_tokens(rest),
            );
        }
    }
}

/// The characters that write an operator.
pub open spec fn operator_chars(operator: TokenModel) -> Seq<char> {
    match operator {
        TokenModel::Plus => seq!['+'],
        TokenModel::Minus => seq!['-'],
        TokenModel::Asterisk => seq!['*'],
        TokenModel::Slash => seq!['/'],
        TokenModel::Lt => seq!['<'],
        TokenModel::Gt => seq!['>'],
        TokenModel::Eq => seq!['=', '='],
        TokenModel::NotEq => seq!['!', '='],
        TokenModel::Bang => seq!['!'],
        TokenModel::Assign => seq!['='],
        _ => Seq::empty(),
    }
}

/// The text of an operator is the characters that write it.
pub proof fn lemma_operator_text(operator: TokenModel)
    requires
        is_infix_operator(operator) || is_prefix_operator(operator) || operator is Assign,
    ensures
        token_text(operator) == operator_chars(operator),
{
    reveal_strlit("+");
    reveal_strlit("-");
    reveal_strlit("*");
    reveal_strlit("/");
    reveal_strlit("<");
    reveal_strlit(">");
    reveal_strlit("==");
    reveal_strlit("!=");
    reveal_strlit("!");
    reveal_strlit("=");
    assert(token_text(operator) =~= operator_chars(operator));
}

/// An operator that is followed by a character other than `=` is scanned as
/// that operator.
pub proof fn lemma_scan_operator(s: Seq<char>, p: int, operator: TokenModel)
    requires
        is_infix_operator(operator) || is_prefix_operator(operator) || operator is Assign,
        0 <= p,
        p + operator_chars(operator).len() < s.len(),
        s.subrange(p, p + operator_chars(operator).len()) == operator_chars(operator),
        s[p + operator_chars(operator).len()] != '=',
    ensures
        scans(s, p, p + operator_chars(operator).len(), seq![operator]),
{
    let chars = operator_chars(operator);
    let part = s.subrange(p, p + chars.len());
    assert(part[0] == s[p]);
    if chars.len() == 2 {
        assert(part[1] == s[p + 1]);
    }
    assert(run_end(s, p, CharClass::Space) == p);
    assert(token_at(s, p) == (operator, p + chars.len()));
    lemma_tokens_step(s, p);
}

/// An operator between two blanks is scanned as the operator.
pub proof fn lemma_scan_spaced_operator(s: Seq<char>, p: int, operator: TokenModel)
    requires
        is_infix_operator(operator) || operator is Assign,
        0 <= p,
        p + 2 + operator_chars(operator).len() <= s.len(),
        s.subrange(p, p + 2 + operator_chars(operator).len()) == seq![' '] + operator_chars(
            operator,
        ) + seq![' '],
    ensures
        scans(s, p, p + 2 + operator_chars(operator).len(), seq![operator]),
{
    let op = operator_chars(operator);
    assert(seq![' '] + op + seq![' '] + Seq::<char>::empty() =~= seq![' '] + op + seq![' ']);
    lemma_four_parts(s, p, seq![' '], op, seq![' '], Seq::empty());
    lemma_one_char(s, p, ' ');
    lemma_one_char(s, p + 1 + op.len(), ' ');
    lemma_skip_space(s, p);
    lemma_scan_operator(s, p + 1, operator);
    lemma_skip_space(s, p + 1 + op.len());
}

/// A name that is followed by a character that no name holds, or by the end
/// of the text, is scanned as the keyword or the identifier that it is.
pub proof fn lemma_scan_name(s: Seq<char>, p: int, name: Seq<char>)
    requires
        name.len() > 0,
        is_letter(name[0]),
        forall|i: int| 0 <= i < name.len() ==> in_class(CharClass::Name, #[trigger] name[i]),
        0 <= p,
        p + name.len() <= s.len(),
        s.subrange(p, p + name.len()) == name,
        p + name.len() == s.len() || !in_class(CharClass::Name, s[p + name.len()]),
        !(keyword_or_ident(name) is Eof),
    ensures
        scans(s, p, p + name.len(), seq![keyword_or_ident(name)]),
{
    let q = p + name.len();
    assert(s[p] == name[0]) by {
        lemma_first_of_part(s, p, name);
    }
    assert(run_end(s, p, CharClass::Space) == p);
    assert forall|i: int| p <= i < q implies in_class(CharClass::Name, #[trigger] s[i]) by {
        assert(s[i] == s.subrange(p, q)[i - p]);
    }
    lemma_run_end_exact(s, p, q, CharClass::Name);
    assert(token_at(s, p) == (keyword_or_ident(name), q));
    lemma_tokens_step(s, p);
}

/// A numeral that is followed by a character that is no digit, or by the end
/// of the text, is scanned as the number that it writes.
pub proof fn lemma_scan_number(s: Seq<char>, p: int, n: nat)
    requires
        0 <= p,
        p + decimal(n).len() <= s.len(),
        s.subrange(p, p + decimal(n).len()) == decimal(n),
        p + decimal(n).len() == s.len() || !is_digit(s[p + decimal(n).len()]),
    ensures
        scans(s, p, p + decimal(n).len(), seq![TokenModel::Int(n as int)]),
{
    lemma_decimal_value_of_decimal(n);
    let text = decimal(n);
    let q = p + text.len();
    lemma_first_of_part(s, p, text);
    assert(is_digit(text[0]));
    assert(run_end(s, p, CharClass::Space) == p);
    assert forall|i: int| p <= i < q implies in_class(CharClass::Digit, #[trigger] s[i]) by {
        assert(s[i] == s.subrange(p, q)[i - p]);
    }
    lemma_run_end_exact(s, p, q, CharClass::Digit);
    assert(token_at(s, p) == (TokenModel::Int(n as int), q));
    lemma_tokens_step(s, p);
}

/// A string literal is scanned as the string between its quotes.
pub proof fn lemma_scan_string(s: Seq<char>, p: int, content: Seq<char>)
    requires
        0 <= p,
        p + content.len() + 2 <= s.len(),
        s.subrange(p, p + content.len() + 2) == seq!['"'] + content + seq!['"'],
        forall|i: int| 0 <= i < content.len() ==> #[trigger] content[i] != '"',
    ensures
        scans(s, p, p + content.len() + 2, seq![TokenModel::String(content)]),
{
    assert(seq!['"'] + content + seq!['"'] + Seq::<char>::empty() =~= seq!['"'] + content
        + seq!['"']);
    lemma_four_parts(s, p, seq!['"'], content, seq!['"'], Seq::empty());
    lemma_one_char(s, p, '"');
    let q = p + 1 + content.len();
    lemma_one_char(s, q, '"');
    assert(run_end(s, p, CharClass::Space) == p);
    assert forall|i: int| p + 1 <= i < q implies in_class(
        CharClass::Unquoted,
        #[trigger] s[i],
    ) by {
        assert(s[i] == s.subrange(p + 1, q)[i - p - 1]);
    }
    lemma_run_end_exact(s, p + 1, q, CharClass::Unquoted);
    assert(token_at(s, p) == (TokenModel::String(content), q + 1));
    lemma_tokens_step(s, p);
}

/// A keyword that is followed by a blank is scanned as the keyword, and the
/// blank with it.
pub proof fn lemma_scan_keyword(s: Seq<char>, p: int, keyword: Seq<char>)
    requires
        keyword.len() > 0,
        forall|i: int| 0 <= i < keyword.len() ==> is_letter(#[trigger] keyword[i]),
        0 <= p,
        p + keyword.len() + 1 <= s.len(),
        s.subrange(p, p + keyword.len() + 1) == keyword + seq![' '],
        !(keyword_or_ident(keyword) is Eof),
    ensures
        scans(s, p, p + keyword.len() + 1, seq![keyword_or_ident(keyword)]),
{
    lemma_two_parts(s, p, keyword, seq![' ']);
    lemma_one_char(s, p + keyword.len(), ' ');
    assert(is_letter(keyword[0]));
    assert forall|i: int| 0 <= i < keyword.len() implies in_class(
        CharClass::Name,
        #[trigger] keyword[i],
    ) by {
        assert(is_letter(keyword[i]));
    }
    lemma_scan_name(s, p, keyword);
    lemma_skip_space(s, p + keyword.len());
    lemma_scans_both(
        s,
        p,
        p + keyword.len(),
        p + keyword.len() + 1,
        seq![keyword_or_ident(keyword)],
        Seq::empty(),
    );
    assert(seq![keyword_or_ident(keyword)] + Seq::<TokenModel>::empty() =~= seq![
        keyword_or_ident(keyword),
    ]);
}

/// The characters of the fixed parts of the text of a program.
pub proof fn lemma_fixed_texts()
    ensures
        "("@ == seq!['('],
        ")"@ == seq![')'],
        "["@ == seq!['['],
        "]"@ == seq![']'],
        "])"@ == seq![']', ')'],
        "{"@ == seq!['{'],
        "}"@ == seq!['}'],
        " "@ == seq![' '],
        ", "@ == seq![',', ' '],
        ": "@ == seq![':', ' '],
        ";"@ == seq![';'],
        "\""@ == seq!['"'],
        " = "@ == seq![' ', '=', ' '],
        " { "@ == seq![' ', '{', ' '],
        " }"@ == seq![' ', '}'],
        ") { "@ == seq![')', ' ', '{', ' '],
        "let "@ == seq!['l', 'e', 't', ' '],
        "return "@ == seq!['r', 'e', 't', 'u', 'r', 'n', ' '],
        "if "@ == seq!['i', 'f', ' '],
        " else { "@ == seq![' ', 'e', 'l', 's', 'e', ' ', '{', ' '],
        "fn("@ == seq!['f', 'n', '('],
        "true"@ == seq!['t', 'r', 'u', 'e'],
        "false"@ == seq!['f', 'a', 'l', 's', 'e'],
        "fn"@ == seq!['f', 'n'],
        "let"@ == seq!['l', 'e', 't'],
        "if"@ == seq!['i', 'f'],
        "else"@ == seq!['e', 'l', 's', 'e'],
        "return"@ == seq!['r', 'e', 't', 'u', 'r', 'n'],
{
    reveal_strlit("(");
    reveal_strlit(")");
    reveal_strlit("[");
    reveal_strlit("]");
    reveal_strlit("])");
    reveal_strlit("{");
    reveal_strlit("}");
    reveal_strlit(" ");
    reveal_strlit(", ");
    reveal_strlit(": ");
    reveal_strlit(";");
    reveal_strlit("\"");
    reveal_strlit(" = ");
    reveal_strlit(" { ");
    reveal_strlit(" }");
    reveal_strlit(") { ");
    reveal_strlit("let ");
    reveal_strlit("return ");
    reveal_strlit("if ");
    reveal_strlit(" else { ");
    reveal_strlit("fn(");
    reveal_strlit("true");
    reveal_strlit("false");
    reveal_strlit("fn");
    reveal_strlit("let");
    reveal_strlit("if");
    reveal_strlit("else");
    reveal_strlit("return");
    assert("("@ =~= seq!['(']);
    assert(")"@ =~= seq![')']);
    assert("["@ =~= seq!['[']);
    assert("]"@ =~= seq![']']);
    assert("])"@ =~= seq![']', ')']);
    assert("{"@ =~= seq!['{']);
    assert("}"@ =~= seq!['}']);
    assert(" "@ =~= seq![' ']);
    assert(", "@ =~= seq![',', ' ']);
    assert(": "@ =~= seq![':', ' ']);
    assert(";"@ =~= seq![';']);
    assert("\""@ =~= seq!['"']);
    assert(" = "@ =~= seq![' ', '=', ' ']);
    assert(" { "@ =~= seq![' ', '{', ' ']);
    assert(" }"@ =~= seq![' ', '}']);
    assert(") { "@ =~= seq![')', ' ', '{', ' ']);
    assert("let "@ =~= seq!['l', 'e', 't', ' ']);
    assert("return "@ =~= seq!['r', 'e', 't', 'u', 'r', 'n', ' ']);
    assert("if "@ =~= seq!['i', 'f', ' ']);
    assert(" else { "@ =~= seq![' ', 'e', 'l', 's', 'e', ' ', '{', ' ']);
    assert("fn("@ =~= seq!['f', 'n', '(']);
    assert("true"@ =~= seq!['t', 'r', 'u', 'e']);
    assert("false"@ =~= seq!['f', 'a', 'l', 's', 'e']);
    assert("fn"@ =~= seq!['f', 'n']);
    assert("let"@ =~= seq!['l', 'e', 't']);
    assert("if"@ =~= seq!['i', 'f']);
    assert("else"@ =~= seq!['e', 'l', 's', 'e']);
    assert("return"@ =~= seq!['r', 'e', 't', 'u', 'r', 'n']);
}

/// The keywords are scanned as themselves.
pub proof fn lemma_keywords()
    ensures
        keyword_or_ident(seq!['f', 'n']) == TokenModel::Function,
        keyword_or_ident(seq!['l', 'e', 't']) == TokenModel::Let,
        keyword_or_ident(seq!['t', 'r', 'u', 'e']) == TokenModel::True,
        keyword_or_ident(seq!['f', 'a', 'l', 's', 'e']) == TokenModel::False,
        keyword_or_ident(seq!['i', 'f']) == TokenModel::If,
        keyword_or_ident(seq!['e', 'l', 's', 'e']) == TokenModel::Else,
        keyword_or_ident(seq!['r', 'e', 't', 'u', 'r', 'n']) == TokenModel::Return,
{
    lemma_fixed_texts();
    assert(seq!['i', 'f'][0] != seq!['f', 'n'][0]);
    assert(seq!['e', 'l', 's', 'e'][0] != seq!['t', 'r', 'u', 'e'][0]);
}

/// Whether nothing behind position `q` of `s` runs into the text of `e` that
/// ends there: behind a name no character that a name holds, and behind a
/// number no digit.
pub open spec fn clear_after(e: ExpressionModel, s: Seq<char>, q: int) -> bool {
    if ends_with_name(e) {
        q == s.len() || (0 <= q < s.len() && !in_class(CharClass::Name, s[q]))
    } else if ends_with_number(e) {
        q == s.len() || (0 <= q < s.len() && !is_digit(s[q]))
    } else {
        true
    }
}

/// Whether nothing behind position `q` of `s` runs into the text of a
/// statement that ends there.
pub open spec fn clear_after_statement(statement: StatementModel, s: Seq<char>, q: int) -> bool {
    match statement {
        StatementModel::Expr(e) => clear_after(e, s, q),
        _ => true,
    }
}

/// The text of a literal, by its kind.
pub proof fn lemma_literal_text(e: ExpressionModel)
    requires
        e is Lit,
    ensures
        match e->Lit_0 {
            LiteralModel::Integer(value) => expression_text(e) == signed_decimal(value),
            LiteralModel::Boolean(value) => expression_text(e) == bool_text(value),
            LiteralModel::String(value) => expression_text(e) == seq!['"'] + value + seq!['"'],
            LiteralModel::Array(elements) => expression_text(e) == seq!['['] + expressions_text(
                elements,
            ) + seq![']'],
            LiteralModel::Hash(pairs) => expression_text(e) == seq!['{'] + pairs_text(pairs)
                + seq!['}'],
        },
{
    lemma_fixed_texts();
    let literal = e->Lit_0;
    assert(expression_text(e) == literal_text(literal));
}

/// The text of an expression that parses back starts with the character that
/// its first token starts with: a letter, a digit, a double quote, an
/// opening parenthesis, bracket or brace.
pub proof fn lemma_expression_text_start(e: ExpressionModel)
    requires
        parses_back(e),
    ensures
        expression_text(e).len() >= 1,
        ({
            let c = expression_text(e)[0];
            let t = first_token(e);
            &&& c != '='
            &&& !is_space(c)
            &&& is_digit(c) <==> t is Int
            &&& is_letter(c) <==> t is Ident || t is True || t is False || t is If || t is Function
            &&& in_class(CharClass::Name, c) ==> is_digit(c) || is_letter(c)
            &&& c == '"' <==> t is String
            &&& c == '{' <==> t is LBrace
            &&& c == '(' <==> t is LParen
            &&& c == '[' <==> t is LBracket
            &&& t is Int || t is Ident || t is True || t is False || t is If || t is Function
                || t is String || t is LBrace || t is LParen || t is LBracket
        }),
    decreases e,
{
    lemma_fixed_texts();
    match e {
        ExpressionModel::Identifier(name) => {},
        ExpressionModel::Lit(literal) => {
            lemma_literal_text(e);
            match literal {
                LiteralModel::Integer(value) => {
                    lemma_decimal_value_of_decimal(value as nat);
                },
                _ => {},
            }
        },
        ExpressionModel::Prefix(operator, right) => {},
        ExpressionModel::Infix(operator, left, right) => {},
        ExpressionModel::If(condition, consequence, alternative) => {
            let head = "if "@ + expression_text(*condition) + " { "@ + statements_text(
                consequence,
            ) + " }"@;
            assert(head[0] == 'i');
            match alternative {
                Some(block) => {
                    assert(expression_text(e) == head + " else { "@ + statements_text(block)
                        + " }"@);
                    assert(expression_text(e)[0] == head[0]);
                },
                None => {},
            }
        },
        ExpressionModel::Fn(parameters, body) => {},
        ExpressionModel::Call(function, arguments) => {
            lemma_expression_text_start(*function);
            assert(expression_text(e) == expression_text(*function) + "("@ + expressions_text(
                arguments,
            ) + ")"@);
            assert(expression_text(e)[0] == expression_text(*function)[0]);
        },
        ExpressionModel::Index(left, index) => {},
    }
}

/// The text of a statement that parses back starts with the character that
/// its first token starts with.
pub proof fn lemma_statement_text_start(statement: StatementModel)
    requires
        statement_parses_back(statement),
    ensures
        statement_text(statement).len() >= 1,
        ({
            let c = statement_text(statement)[0];
            let t = statement_first_token(statement);
            &&& !is_space(c)
            &&& is_digit(c) ==> t is Int
            &&& in_class(CharClass::Name, c) ==> !(t is String) && !(t is LBrace)
        }),
{
    lemma_fixed_texts();
    match statement {
        StatementModel::Let(name, value) => {
            assert(statement_text(statement)[0] == 'l');
        },
        StatementModel::Return(value) => {
            assert(statement_text(statement)[0] == 'r');
        },
        StatementModel::Expr(value) => {
            lemma_expression_text_start(value);
        },
    }
}

/// The token of a character of a text of blanks and delimiters: none for a
/// blank.
pub open spec fn delimiter_token(c: char) -> Seq<TokenModel> {
    if is_space(c) {
        Seq::empty()
    } else {
        seq![single_char_token(c)]
    }
}

/// The tokens of a text of up to four blanks and delimiters.
pub proof fn lemma_delimiter_tokens(a: char, b: char, c: char, d: char)
    ensures
        delimiter_tokens(seq![a]) == delimiter_token(a),
        delimiter_tokens(seq![a, b]) == delimiter_token(a) + delimiter_token(b),
        delimiter_tokens(seq![a, b, c]) == delimiter_token(a) + delimiter_token(b)
            + delimiter_token(c),
        delimiter_tokens(seq![a, b, c, d]) == delimiter_token(a) + delimiter_token(b)
            + delimiter_token(c) + delimiter_token(d),
{
    lemma_delimiter_tokens_step(seq![d]);
    assert(seq![d].drop_first() =~= Seq::<char>::empty());
    assert(delimiter_tokens(seq![d]) =~= delimiter_token(d));
    lemma_delimiter_tokens_step(seq![a]);
    assert(seq![a].drop_first() =~= Seq::<char>::empty());
    assert(delimiter_tokens(seq![a]) =~= delimiter_token(a));
    lemma_delimiter_tokens_step(seq![b]);
    assert(seq![b].drop_first() =~= Seq::<char>::empty());
    assert(delimiter_tokens(seq![b]) =~= delimiter_token(b));
    lemma_delimiter_tokens_step(seq![c]);
    assert(seq![c].drop_first() =~= Seq::<char>::empty());
    assert(delimiter_tokens(seq![c]) =~= delimiter_token(c));
    lemma_delimiter_tokens_step(seq![c, d]);
    assert(seq![c, d].drop_first() =~= seq![d]);
    lemma_delimiter_tokens_step(seq![a, b]);
    assert(seq![a, b].drop_first() =~= seq![b]);
    lemma_delimiter_tokens_step(seq![b, c]);
    assert(seq![b, c].drop_first() =~= seq![c]);
    lemma_delimiter_tokens_step(seq![b, c, d]);
    assert(seq![b, c, d].drop_first() =~= seq![c, d]);
    lemma_delimiter_tokens_step(seq![a, b, c]);
    assert(seq![a, b, c].drop_first() =~= seq![b, c]);
    lemma_delimiter_tokens_step(seq![a, b, c, d]);
    assert(seq![a, b, c, d].drop_first() =~= seq![b, c, d]);
    assert(delimiter_tokens(seq![a, b, c, d]) =~= delimiter_token(a) + delimiter_token(b)
        + delimiter_token(c) + delimiter_token(d));
    assert(delimiter_tokens(seq![a, b, c]) =~= delimiter_token(a) + delimiter_token(b)
        + delimiter_token(c));
}

/// The tokens of a text of blanks and delimiters that is not empty are the
/// token of its first character and the tokens of the rest.
proof fn lemma_delimiter_tokens_step(text: Seq<char>)
    requires
        text.len() > 0,
    ensures
        delimiter_tokens(text) == delimiter_token(text[0]) + delimiter_tokens(text.drop_first()),
{
    assert(Seq::<TokenModel>::empty() + delimiter_tokens(text.drop_first()) =~= delimiter_tokens(
        text.drop_first(),
    ));
}

/// A text between an opening and a closing delimiter is scanned as the
/// tokens of the text between the two delimiters' tokens.
pub proof fn lemma_scan_wrapped(
    s: Seq<char>,
    p: int,
    open: char,
    inner: Seq<char>,
    close: char,
    tokens: Seq<TokenModel>,
)
    requires
        is_delimiter(open),
        is_delimiter(close),
        0 <= p,
        p + 2 + inner.len() <= s.len(),
        s.subrange(p, p + 2 + inner.len()) == seq![open] + inner + seq![close],
        scans(s, p + 1, p + 1 + inner.len(), tokens),
    ensures
        scans(s, p, p + 2 + inner.len(), seq![single_char_token(open)] + tokens + seq![
            single_char_token(close),
        ]),
{
    assert(seq![open] + inner + seq![close] + Seq::<char>::empty() =~= seq![open] + inner
        + seq![close]);
    lemma_four_parts(s, p, seq![open], inner, seq![close], Seq::empty());
    lemma_one_char(s, p, open);
    lemma_one_char(s, p + 1 + inner.len(), close);
    lemma_scan_delimiter(s, p);
    lemma_scan_delimiter(s, p + 1 + inner.len());
    lemma_scans_both(s, p, p + 1, p + 1 + inner.len(), seq![single_char_token(open)], tokens);
    lemma_scans_both(
        s,
        p,
        p + 1 + inner.len(),
        p + 2 + inner.len(),
        seq![single_char_token(open)] + tokens,
        seq![single_char_token(close)],
    );
}

/// The places of a text between an opening and a closing character.
pub proof fn lemma_wrapped_parts(s: Seq<char>, p: int, open: char, inner: Seq<char>, close: char)
    requires
        0 <= p,
        p + 2 + inner.len() <= s.len(),
        s.subrange(p, p + 2 + inner.len()) == seq![open] + inner + seq![close],
    ensures
        s[p] == open,
        s.subrange(p + 1, p + 1 + inner.len()) == inner,
        s[p + 1 + inner.len()] == close,
{
    assert(seq![open] + inner + seq![close] + Seq::<char>::empty() =~= seq![open] + inner
        + seq![close]);
    lemma_four_parts(s, p, seq![open], inner, seq![close], Seq::empty());
    lemma_one_char(s, p, open);
    lemma_one_char(s, p + 1 + inner.len(), close);
}

/// The places of two texts with a text between them.
pub proof fn lemma_three_parts<T>(s: Seq<T>, p: int, a: Seq<T>, b: Seq<T>, c: Seq<T>)
    requires
        0 <= p,
        p + a.len() + b.len() + c.len() <= s.len(),
        s.subrange(p, p + a.len() + b.len() + c.len()) == a + b + c,
    ensures
        s.subrange(p, p + a.len()) == a,
        s.subrange(p + a.len(), p + a.len() + b.len()) == b,
        s.subrange(p + a.len() + b.len(), p + a.len() + b.len() + c.len()) == c,
{
    assert(a + b + c + Seq::<T>::empty() =~= a + b + c);
    lemma_four_parts(s, p, a, b, c, Seq::empty());
}

/// Two texts with a comma and a blank between them are scanned as the tokens
/// of the first, a comma and the tokens of the second; with a colon and a
/// blank, as the tokens of the first, a colon and the tokens of the second.
pub proof fn lemma_scan_separated(
    s: Seq<char>,
    p: int,
    first: Seq<char>,
    separator: char,
    second: Seq<char>,
    first_tokens: Seq<TokenModel>,
    second_tokens: Seq<TokenModel>,
)
    requires
        separator == ',' || separator == ':',
        0 <= p,
        p + first.len() + 2 + second.len() <= s.len(),
        s.subrange(p, p + first.len() + 2 + second.len()) == first + seq![separator, ' ']
            + second,
        scans(s, p, p + first.len(), first_tokens),
        scans(s, p + first.len() + 2, p + first.len() + 2 + second.len(), second_tokens),
    ensures
        scans(
            s,
            p,
            p + first.len() + 2 + second.len(),
            first_tokens + seq![single_char_token(separator)] + second_tokens,
        ),
{
    lemma_three_parts(s, p, first, seq![separator, ' '], second);
    let m = p + first.len();
    let between = seq![separator, ' '];
    assert forall|i: int| 0 <= i < 2 implies is_space(#[trigger] between[i]) || is_delimiter(
        between[i],
    ) by {}
    lemma_scan_delimiters(s, m, between);
    lemma_delimiter_tokens(separator, ' ', ' ', ' ');
    assert(delimiter_tokens(seq![separator, ' ']) =~= seq![single_char_token(separator)]);
    lemma_scans_both(s, p, m, m + 2, first_tokens, seq![single_char_token(separator)]);
    lemma_scans_both(
        s,
        p,
        m + 2,
        m + 2 + second.len(),
        first_tokens + seq![single_char_token(separator)],
        second_tokens,
    );
}

/// The places of two texts with a separator and a blank between them, and
/// what stands behind the first: the separator.
pub proof fn lemma_separated_parts(
    s: Seq<char>,
    p: int,
    first: Seq<char>,
    separator: char,
    second: Seq<char>,
)
    requires
        0 <= p,
        p + first.len() + 2 + second.len() <= s.len(),
        s.subrange(p, p + first.len() + 2 + second.len()) == first + seq![separator, ' ']
            + second,
    ensures
        s.subrange(p, p + first.len()) == first,
        s[p + first.len()] == separator,
        s.subrange(p + first.len() + 2, p + first.len() + 2 + second.len()) == second,
{
    lemma_three_parts(s, p, first, seq![separator, ' '], second);
    lemma_first_of_part(s, p + first.len(), seq![separator, ' ']);
}

/// The text of a prefix expression is scanned as its tokens.
pub proof fn lemma_scan_prefix(
    s: Seq<char>,
    p: int,
    operator: TokenModel,
    tr: Seq<char>,
    right: Seq<TokenModel>,
)
    requires
        is_prefix_operator(operator),
        0 <= p,
        tr.len() >= 1,
        tr[0] != '=',
        p + 3 + tr.len() <= s.len(),
        s.subrange(p, p + 3 + tr.len()) == seq!['('] + operator_chars(operator) + tr + seq![')'],
        scans(s, p + 2, p + 2 + tr.len(), right),
    ensures
        scans(s, p, p + 3 + tr.len(), seq![TokenModel::LParen, operator] + right + seq![
            TokenModel::RParen,
        ]),
{
    let op = operator_chars(operator);
    assert(op.len() == 1);
    lemma_four_parts(s, p, seq!['('], op, tr, seq![')']);
    lemma_one_char(s, p, '(');
    lemma_one_char(s, p + 2 + tr.len(), ')');
    lemma_first_of_part(s, p + 2, tr);
    lemma_scan_delimiter(s, p);
    lemma_scan_operator(s, p + 1, operator);
    lemma_scan_delimiter(s, p + 2 + tr.len());
    lemma_scans_both(s, p, p + 1, p + 2, seq![TokenModel::LParen], seq![operator]);
    assert(seq![TokenModel::LParen] + seq![operator] =~= seq![TokenModel::LParen, operator]);
    lemma_scans_both(s, p, p + 2, p + 2 + tr.len(), seq![TokenModel::LParen, operator], right);
    lemma_scans_both(
        s,
        p,
        p + 2 + tr.len(),
        p + 3 + tr.len(),
        seq![TokenModel::LParen, operator] + right,
        seq![TokenModel::RParen],
    );
}

/// The places of the parts of the text of a prefix expression.
pub proof fn lemma_prefix_parts(s: Seq<char>, p: int, operator: TokenModel, tr: Seq<char>)
    requires
        is_prefix_operator(operator),
        0 <= p,
        p + 3 + tr.len() <= s.len(),
        s.subrange(p, p + 3 + tr.len()) == seq!['('] + operator_chars(operator) + tr + seq![')'],
    ensures
        s.subrange(p + 2, p + 2 + tr.len()) == tr,
        s[p + 2 + tr.len()] == ')',
{
    let op = operator_chars(operator);
    assert(op.len() == 1);
    lemma_four_parts(s, p, seq!['('], op, tr, seq![')']);
    lemma_one_char(s, p + 2 + tr.len(), ')');
}

/// The text of a binary expression is scanned as its tokens.
pub proof fn lemma_scan_infix(
    s: Seq<char>,
    p: int,
    operator: TokenModel,
    tl: Seq<char>,
    tr: Seq<char>,
    left: Seq<TokenModel>,
    right: Seq<TokenModel>,
)
    requires
        is_infix_operator(operator),
        0 <= p,
        p + 4 + tl.len() + operator_chars(operator).len() + tr.len() <= s.len(),
        s.subrange(p, p + 4 + tl.len() + operator_chars(operator).len() + tr.len()) == seq!['(']
            + tl + seq![' '] + operator_chars(operator) + seq![' '] + tr + seq![')'],
        scans(s, p + 1, p + 1 + tl.len(), left),
        scans(
            s,
            p + 3 + tl.len() + operator_chars(operator).len(),
            p + 3 + tl.len() + operator_chars(operator).len() + tr.len(),
            right,
        ),
    ensures
        scans(
            s,
            p,
            p + 4 + tl.len() + operator_chars(operator).len() + tr.len(),
            seq![TokenModel::LParen] + left + seq![operator] + right + seq![TokenModel::RParen],
        ),
{
    let op = operator_chars(operator);
    let middle = seq![' '] + op + seq![' '];
    let q = p + 4 + tl.len() + op.len() + tr.len();
    assert(seq!['('] + tl + seq![' '] + op + seq![' '] + tr + seq![')'] =~= (seq!['('] + tl)
        + middle + tr + seq![')']);
    assert((seq!['('] + tl).len() == 1 + tl.len());
    lemma_four_parts(s, p, seq!['('] + tl, middle, tr, seq![')']);
    lemma_one_char(s, q - 1, ')');
    lemma_first_of_part(s, p, seq!['('] + tl);
    lemma_scan_delimiter(s, p);
    let pm = p + 1 + tl.len();
    lemma_scan_spaced_operator(s, pm, operator);
    lemma_scan_delimiter(s, q - 1);
    lemma_scans_both(s, p, p + 1, pm, seq![TokenModel::LParen], left);
    lemma_scans_both(s, p, pm, pm + 2 + op.len(), seq![TokenModel::LParen] + left, seq![operator]);
    lemma_scans_both(
        s,
        p,
        pm + 2 + op.len(),
        q - 1,
        seq![TokenModel::LParen] + left + seq![operator],
        right,
    );
    lemma_scans_both(
        s,
        p,
        q - 1,
        q,
        seq![TokenModel::LParen] + left + seq![operator] + right,
        seq![TokenModel::RParen],
    );
}

/// The places of the parts of the text of a binary expression.
pub proof fn lemma_infix_parts(
    s: Seq<char>,
    p: int,
    operator: TokenModel,
    tl: Seq<char>,
    tr: Seq<char>,
)
    requires
        is_infix_operator(operator),
        0 <= p,
        p + 4 + tl.len() + operator_chars(operator).len() + tr.len() <= s.len(),
        s.subrange(p, p + 4 + tl.len() + operator_chars(operator).len() + tr.len()) == seq!['(']
            + tl + seq![' '] + operator_chars(operator) + seq![' '] + tr + seq![')'],
    ensures
        s.subrange(p + 1, p + 1 + tl.len()) == tl,
        s[p + 1 + tl.len()] == ' ',
        s.subrange(
            p + 3 + tl.len() + operator_chars(operator).len(),
            p + 3 + tl.len() + operator_chars(operator).len() + tr.len(),
        ) == tr,
        s[p + 3 + tl.len() + operator_chars(operator).len() + tr.len()] == ')',
{
    let op = operator_chars(operator);
    let middle = seq![' '] + op + seq![' '];
    let q = p + 4 + tl.len() + op.len() + tr.len();
    let whole = seq!['('] + tl + seq![' '] + op + seq![' '] + tr + seq![')'];
    assert(whole =~= seq!['('] + tl + middle + (tr + seq![')']));
    assert((tr + seq![')']).len() == tr.len() + 1);
    lemma_four_parts(s, p, seq!['('], tl, middle, tr + seq![')']);
    lemma_two_parts(s, p + 1 + tl.len() + middle.len(), tr, seq![')']);
    lemma_one_char(s, q - 1, ')');
    lemma_first_of_part(s, p + 1 + tl.len(), middle);
}

/// The text of an index expression is scanned as its tokens.
pub proof fn lemma_scan_index(
    s: Seq<char>,
    p: int,
    tl: Seq<char>,
    ti: Seq<char>,
    left: Seq<TokenModel>,
    index: Seq<TokenModel>,
)
    requires
        0 <= p,
        p + 4 + tl.len() + ti.len() <= s.len(),
        s.subrange(p, p + 4 + tl.len() + ti.len()) == seq!['('] + tl + seq!['['] + ti + seq![
            ']',
            ')',
        ],
        scans(s, p + 1, p + 1 + tl.len(), left),
        scans(s, p + 2 + tl.len(), p + 2 + tl.len() + ti.len(), index),
    ensures
        scans(
            s,
            p,
            p + 4 + tl.len() + ti.len(),
            seq![TokenModel::LParen] + left + seq![TokenModel::LBracket] + index + seq![
                TokenModel::RBracket,
                TokenModel::RParen,
            ],
        ),
{
    let q = p + 4 + tl.len() + ti.len();
    let whole = seq!['('] + tl + seq!['['] + ti + seq![']', ')'];
    assert(whole =~= (seq!['('] + tl) + seq!['['] + ti + seq![']', ')']);
    assert((seq!['('] + tl).len() == 1 + tl.len());
    lemma_four_parts(s, p, seq!['('] + tl, seq!['['], ti, seq![']', ')']);
    lemma_first_of_part(s, p, seq!['('] + tl);
    lemma_one_char(s, p + 1 + tl.len(), '[');
    lemma_scan_delimiter(s, p);
    lemma_scan_delimiter(s, p + 1 + tl.len());
    let closing = seq![']', ')'];
    assert forall|i: int| 0 <= i < 2 implies is_space(#[trigger] closing[i]) || is_delimiter(
        closing[i],
    ) by {}
    lemma_scan_delimiters(s, q - 2, closing);
    lemma_delimiter_tokens(']', ')', ' ', ' ');
    assert(delimiter_tokens(seq![']', ')']) =~= seq![TokenModel::RBracket, TokenModel::RParen]);
    lemma_scans_both(s, p, p + 1, p + 1 + tl.len(), seq![TokenModel::LParen], left);
    lemma_scans_both(
        s,
        p,
        p + 1 + tl.len(),
        p + 2 + tl.len(),
        seq![TokenModel::LParen] + left,
        seq![TokenModel::LBracket],
    );
    lemma_scans_both(
        s,
        p,
        p + 2 + tl.len(),
        q - 2,
        seq![TokenModel::LParen] + left + seq![TokenModel::LBracket],
        index,
    );
    lemma_scans_both(
        s,
        p,
        q - 2,
        q,
        seq![TokenModel::LParen] + left + seq![TokenModel::LBracket] + index,
        seq![TokenModel::RBracket, TokenModel::RParen],
    );
}

/// The places of the parts of the text of an index expression.
pub proof fn lemma_index_parts(s: Seq<char>, p: int, tl: Seq<char>, ti: Seq<char>)
    requires
        0 <= p,
        p + 4 + tl.len() + ti.len() <= s.len(),
        s.subrange(p, p + 4 + tl.len() + ti.len()) == seq!['('] + tl + seq!['['] + ti + seq![
            ']',
            ')',
        ],
    ensures
        s.subrange(p + 1, p + 1 + tl.len()) == tl,
        s[p + 1 + tl.len()] == '[',
        s.subrange(p + 2 + tl.len(), p + 2 + tl.len() + ti.len()) == ti,
        s[p + 2 + tl.len() + ti.len()] == ']',
{
    let whole = seq!['('] + tl + seq!['['] + ti + seq![']', ')'];
    assert(whole =~= seq!['('] + tl + seq!['['] + (ti + seq![']', ')']));
    assert((ti + seq![']', ')']).len() == ti.len() + 2);
    lemma_four_parts(s, p, seq!['('], tl, seq!['['], ti + seq![']', ')']);
    lemma_two_parts(s, p + 2 + tl.len(), ti, seq![']', ')']);
    lemma_one_char(s, p + 1 + tl.len(), '[');
    lemma_first_of_part(s, p + 2 + tl.len() + ti.len(), seq![']', ')']);
}

/// The text of a call is scanned as its tokens.
pub proof fn lemma_scan_call(
    s: Seq<char>,
    p: int,
    tf: Seq<char>,
    ta: Seq<char>,
    function: Seq<TokenModel>,
    arguments: Seq<TokenModel>,
)
    requires
        0 <= p,
        p + 2 + tf.len() + ta.len() <= s.len(),
        s.subrange(p, p + 2 + tf.len() + ta.len()) == tf + seq!['('] + ta + seq![')'],
        scans(s, p, p + tf.len(), function),
        scans(s, p + 1 + tf.len(), p + 1 + tf.len() + ta.len(), arguments),
    ensures
        scans(
            s,
            p,
            p + 2 + tf.len() + ta.len(),
            function + seq![TokenModel::LParen] + arguments + seq![TokenModel::RParen],
        ),
{
    lemma_four_parts(s, p, tf, seq!['('], ta, seq![')']);
    let m = p + tf.len();
    lemma_one_char(s, m, '(');
    lemma_one_char(s, m + 1 + ta.len(), ')');
    lemma_scan_delimiter(s, m);
    lemma_scan_delimiter(s, m + 1 + ta.len());
    lemma_scans_both(s, p, m, m + 1, function, seq![TokenModel::LParen]);
    lemma_scans_both(s, p, m + 1, m + 1 + ta.len(), function + seq![TokenModel::LParen], arguments);
    lemma_scans_both(
        s,
        p,
        m + 1 + ta.len(),
        m + 2 + ta.len(),
        function + seq![TokenModel::LParen] + arguments,
        seq![TokenModel::RParen],
    );
}

/// The places of the parts of the text of a call.
pub proof fn lemma_call_parts(s: Seq<char>, p: int, tf: Seq<char>, ta: Seq<char>)
    requires
        0 <= p,
        p + 2 + tf.len() + ta.len() <= s.len(),
        s.subrange(p, p + 2 + tf.len() + ta.len()) == tf + seq!['('] + ta + seq![')'],
    ensures
        s.subrange(p, p + tf.len()) == tf,
        s[p + tf.len()] == '(',
        s.subrange(p + 1 + tf.len(), p + 1 + tf.len() + ta.len()) == ta,
        s[p + 1 + tf.len() + ta.len()] == ')',
{
    lemma_four_parts(s, p, tf, seq!['('], ta, seq![')']);
    lemma_one_char(s, p + tf.len(), '(');
    lemma_one_char(s, p + 1 + tf.len() + ta.len(), ')');
}

/// The text of a block, ` { `, the statements and ` }`, is scanned as the
/// tokens of the statements between braces.
pub proof fn lemma_scan_braced(s: Seq<char>, p: int, tb: Seq<char>, body: Seq<TokenModel>)
    requires
        0 <= p,
        p + 5 + tb.len() <= s.len(),
        s.subrange(p, p + 5 + tb.len()) == seq![' ', '{', ' '] + tb + seq![' ', '}'],
        scans(s, p + 3, p + 3 + tb.len(), body),
    ensures
        scans(s, p, p + 5 + tb.len(), seq![TokenModel::LBrace] + body + seq![TokenModel::RBrace]),
{
    let opening = seq![' ', '{', ' '];
    let closing = seq![' ', '}'];
    lemma_three_parts(s, p, opening, tb, closing);
    assert forall|i: int| 0 <= i < 3 implies is_space(#[trigger] opening[i]) || is_delimiter(
        opening[i],
    ) by {}
    assert forall|i: int| 0 <= i < 2 implies is_space(#[trigger] closing[i]) || is_delimiter(
        closing[i],
    ) by {}
    lemma_scan_delimiters(s, p, opening);
    lemma_scan_delimiters(s, p + 3 + tb.len(), closing);
    lemma_delimiter_tokens(' ', '{', ' ', ' ');
    lemma_delimiter_tokens(' ', '}', ' ', ' ');
    assert(delimiter_tokens(opening) =~= seq![TokenModel::LBrace]);
    assert(delimiter_tokens(closing) =~= seq![TokenModel::RBrace]);
    lemma_scans_both(s, p, p + 3, p + 3 + tb.len(), seq![TokenModel::LBrace], body);
    lemma_scans_both(
        s,
        p,
        p + 3 + tb.len(),
        p + 5 + tb.len(),
        seq![TokenModel::LBrace] + body,
        seq![TokenModel::RBrace],
    );
}

/// The places of the parts of the text of a block.
pub proof fn lemma_braced_parts(s: Seq<char>, p: int, tb: Seq<char>)
    requires
        0 <= p,
        p + 5 + tb.len() <= s.len(),
        s.subrange(p, p + 5 + tb.len()) == seq![' ', '{', ' '] + tb + seq![' ', '}'],
    ensures
        s.subrange(p + 3, p + 3 + tb.len()) == tb,
        s[p + 3 + tb.len()] == ' ',
        s[p] == ' ',
{
    lemma_three_parts(s, p, seq![' ', '{', ' '], tb, seq![' ', '}']);
    lemma_first_of_part(s, p + 3 + tb.len(), seq![' ', '}']);
    lemma_first_of_part(s, p, seq![' ', '{', ' ']);
}

/// `if ` and the text of a condition are scanned as `if` and the tokens of
/// the condition.
pub proof fn lemma_scan_if_head(s: Seq<char>, p: int, tc: Seq<char>, condition: Seq<TokenModel>)
    requires
        0 <= p,
        p + 3 + tc.len() <= s.len(),
        s.subrange(p, p + 3 + tc.len()) == seq!['i', 'f', ' '] + tc,
        scans(s, p + 3, p + 3 + tc.len(), condition),
    ensures
        scans(s, p, p + 3 + tc.len(), seq![TokenModel::If] + condition),
{
    lemma_two_parts(s, p, seq!['i', 'f', ' '], tc);
    lemma_keywords();
    let keyword = seq!['i', 'f'];
    assert(keyword + seq![' '] =~= seq!['i', 'f', ' ']);
    assert forall|i: int| 0 <= i < keyword.len() implies is_letter(#[trigger] keyword[i]) by {}
    lemma_scan_keyword(s, p, keyword);
    lemma_scans_both(s, p, p + 3, p + 3 + tc.len(), seq![TokenModel::If], condition);
}

/// ` else` between two blocks is scanned as `else`.
pub proof fn lemma_scan_else(s: Seq<char>, p: int)
    requires
        0 <= p,
        p + 6 <= s.len(),
        s.subrange(p, p + 5) == seq![' ', 'e', 'l', 's', 'e'],
        s[p + 5] == ' ',
    ensures
        scans(s, p, p + 5, seq![TokenModel::Else]),
{
    let keyword = seq!['e', 'l', 's', 'e'];
    assert(seq![' ', 'e', 'l', 's', 'e'] =~= seq![' '] + keyword);
    lemma_two_parts(s, p, seq![' '], keyword);
    lemma_one_char(s, p, ' ');
    lemma_skip_space(s, p);
    lemma_keywords();
    assert forall|i: int| 0 <= i < keyword.len() implies in_class(
        CharClass::Name,
        #[trigger] keyword[i],
    ) by {}
    lemma_scan_name(s, p + 1, keyword);
    lemma_scans_both(s, p, p + 1, p + 5, Seq::empty(), seq![TokenModel::Else]);
    assert(Seq::<TokenModel>::empty() + seq![TokenModel::Else] =~= seq![TokenModel::Else]);
}

/// `fn(`, the parameters and `)` are scanned as `fn`, the parameters in
/// parentheses.
pub proof fn lemma_scan_fn_head(s: Seq<char>, p: int, tn: Seq<char>, names: Seq<TokenModel>)
    requires
        0 <= p,
        p + 4 + tn.len() <= s.len(),
        s.subrange(p, p + 4 + tn.len()) == seq!['f', 'n', '('] + tn + seq![')'],
        scans(s, p + 3, p + 3 + tn.len(), names),
    ensures
        scans(s, p, p + 4 + tn.len(), seq![TokenModel::Function, TokenModel::LParen] + names
            + seq![TokenModel::RParen]),
{
    let keyword = seq!['f', 'n'];
    assert(seq!['f', 'n', '('] + tn + seq![')'] =~= keyword + seq!['('] + tn + seq![')']);
    lemma_four_parts(s, p, keyword, seq!['('], tn, seq![')']);
    lemma_one_char(s, p + 2, '(');
    lemma_one_char(s, p + 3 + tn.len(), ')');
    lemma_keywords();
    assert forall|i: int| 0 <= i < keyword.len() implies in_class(
        CharClass::Name,
        #[trigger] keyword[i],
    ) by {}
    lemma_scan_name(s, p, keyword);
    lemma_scan_delimiter(s, p + 2);
    lemma_scan_delimiter(s, p + 3 + tn.len());
    lemma_scans_both(s, p, p + 2, p + 3, seq![TokenModel::Function], seq![TokenModel::LParen]);
    assert(seq![TokenModel::Function] + seq![TokenModel::LParen] =~= seq![
        TokenModel::Function,
        TokenModel::LParen,
    ]);
    lemma_scans_both(
        s,
        p,
        p + 3,
        p + 3 + tn.len(),
        seq![TokenModel::Function, TokenModel::LParen],
        names,
    );
    lemma_scans_both(
        s,
        p,
        p + 3 + tn.len(),
        p + 4 + tn.len(),
        seq![TokenModel::Function, TokenModel::LParen] + names,
        seq![TokenModel::RParen],
    );
}

/// The text of a `let` statement is scanned as its tokens.
pub proof fn lemma_scan_let(
    s: Seq<char>,
    p: int,
    name: Seq<char>,
    te: Seq<char>,
    value: Seq<TokenModel>,
)
    requires
        is_identifier(name),
        0 <= p,
        p + 8 + name.len() + te.len() <= s.len(),
        s.subrange(p, p + 8 + name.len() + te.len()) == seq!['l', 'e', 't', ' '] + name + seq![
            ' ',
            '=',
            ' ',
        ] + te + seq![';'],
        scans(s, p + 7 + name.len(), p + 7 + name.len() + te.len(), value),
    ensures
        scans(
            s,
            p,
            p + 8 + name.len() + te.len(),
            seq![TokenModel::Let, TokenModel::Ident(name), TokenModel::Assign] + value + seq![
                TokenModel::Semicolon,
            ],
        ),
{
    let start = seq!['l', 'e', 't', ' '];
    let assign = seq![' ', '=', ' '];
    let whole = start + name + assign + te + seq![';'];
    let q = p + 8 + name.len() + te.len();
    assert(whole =~= (start + name) + assign + te + seq![';']);
    assert((start + name).len() == 4 + name.len());
    lemma_four_parts(s, p, start + name, assign, te, seq![';']);
    lemma_two_parts(s, p, start, name);
    lemma_one_char(s, q - 1, ';');
    let keyword = seq!['l', 'e', 't'];
    assert(keyword + seq![' '] =~= start);
    lemma_keywords();
    assert forall|i: int| 0 <= i < keyword.len() implies is_letter(#[trigger] keyword[i]) by {}
    lemma_scan_keyword(s, p, keyword);
    let pn = p + 4;
    let pa = pn + name.len();
    lemma_first_of_part(s, pa, assign);
    lemma_scan_name(s, pn, name);
    assert(assign =~= seq![' '] + operator_chars(TokenModel::Assign) + seq![' ']);
    lemma_scan_spaced_operator(s, pa, TokenModel::Assign);
    lemma_scan_delimiter(s, q - 1);
    lemma_scans_both(s, p, pn, pa, seq![TokenModel::Let], seq![TokenModel::Ident(name)]);
    lemma_scans_both(
        s,
        p,
        pa,
        pa + 3,
        seq![TokenModel::Let] + seq![TokenModel::Ident(name)],
        seq![TokenModel::Assign],
    );
    assert(seq![TokenModel::Let] + seq![TokenModel::Ident(name)] + seq![TokenModel::Assign]
        =~= seq![TokenModel::Let, TokenModel::Ident(name), TokenModel::Assign]);
    lemma_scans_both(
        s,
        p,
        pa + 3,
        q - 1,
        seq![TokenModel::Let, TokenModel::Ident(name), TokenModel::Assign],
        value,
    );
    lemma_scans_both(
        s,
        p,
        q - 1,
        q,
        seq![TokenModel::Let, TokenModel::Ident(name), TokenModel::Assign] + value,
        seq![TokenModel::Semicolon],
    );
}

/// The places of the parts of the text of a `let` statement.
pub proof fn lemma_let_parts(s: Seq<char>, p: int, name: Seq<char>, te: Seq<char>)
    requires
        0 <= p,
        p + 8 + name.len() + te.len() <= s.len(),
        s.subrange(p, p + 8 + name.len() + te.len()) == seq!['l', 'e', 't', ' '] + name + seq![
            ' ',
            '=',
            ' ',
        ] + te + seq![';'],
    ensures
        s.subrange(p + 7 + name.len(), p + 7 + name.len() + te.len()) == te,
        s[p + 7 + name.len() + te.len()] == ';',
{
    let start = seq!['l', 'e', 't', ' '];
    let assign = seq![' ', '=', ' '];
    let whole = start + name + assign + te + seq![';'];
    assert(whole =~= (start + name) + assign + te + seq![';']);
    assert((start + name).len() == 4 + name.len());
    lemma_four_parts(s, p, start + name, assign, te, seq![';']);
    lemma_one_char(s, p + 7 + name.len() + te.len(), ';');
}

/// The text of a `return` statement is scanned as its tokens.
pub proof fn lemma_scan_return(s: Seq<char>, p: int, te: Seq<char>, value: Seq<TokenModel>)
    requires
        0 <= p,
        p + 8 + te.len() <= s.len(),
        s.subrange(p, p + 8 + te.len()) == seq!['r', 'e', 't', 'u', 'r', 'n', ' '] + te + seq![
            ';',
        ],
        scans(s, p + 7, p + 7 + te.len(), value),
    ensures
        scans(s, p, p + 8 + te.len(), seq![TokenModel::Return] + value + seq![
            TokenModel::Semicolon,
        ]),
{
    let start = seq!['r', 'e', 't', 'u', 'r', 'n', ' '];
    lemma_three_parts(s, p, start, te, seq![';']);
    lemma_one_char(s, p + 7 + te.len(), ';');
    let keyword = seq!['r', 'e', 't', 'u', 'r', 'n'];
    assert(keyword + seq![' '] =~= start);
    lemma_keywords();
    assert forall|i: int| 0 <= i < keyword.len() implies is_letter(#[trigger] keyword[i]) by {}
    lemma_scan_keyword(s, p, keyword);
    lemma_scan_delimiter(s, p + 7 + te.len());
    lemma_scans_both(s, p, p + 7, p + 7 + te.len(), seq![TokenModel::Return], value);
    lemma_scans_both(
        s,
        p,
        p + 7 + te.len(),
        p + 8 + te.len(),
        seq![TokenModel::Return] + value,
        seq![TokenModel::Semicolon],
    );
}

/// The places of the parts of the text of a `return` statement.
pub proof fn lemma_return_parts(s: Seq<char>, p: int, te: Seq<char>)
    requires
        0 <= p,
        p + 8 + te.len() <= s.len(),
        s.subrange(p, p + 8 + te.len()) == seq!['r', 'e', 't', 'u', 'r', 'n', ' '] + te + seq![
            ';',
        ],
    ensures
        s.subrange(p + 7, p + 7 + te.len()) == te,
        s[p + 7 + te.len()] == ';',
{
    lemma_three_parts(s, p, seq!['r', 'e', 't', 'u', 'r', 'n', ' '], te, seq![';']);
    lemma_one_char(s, p + 7 + te.len(), ';');
}

/// The text of a list of identifiers is scanned as the identifiers with
/// commas between them, where nothing that a name holds follows the text.
pub proof fn lemma_scan_names(names: Seq<Seq<char>>, s: Seq<char>, p: int)
    requires
        forall|i: int| 0 <= i < names.len() ==> is_identifier(#[trigger] names[i]),
        0 <= p,
        p + names_text(names).len() <= s.len(),
        s.subrange(p, p + names_text(names).len()) == names_text(names),
        names.len() > 0 ==> p + names_text(names).len() == s.len() || !in_class(
            CharClass::Name,
            s[p + names_text(names).len()],
        ),
    ensures
        scans(s, p, p + names_text(names).len(), names_tokens(names)),
    decreases names.len(),
{
    lemma_fixed_texts();
    if names.len() == 0 {
        lemma_scans_nothing(s, p);
    } else if names.len() == 1 {
        lemma_scan_name(s, p, names[0]);
    } else {
        let head = names.drop_last();
        let th = names_text(head);
        let last = names.last();
        assert(names_text(names) == th + seq![',', ' '] + last);
        lemma_separated_parts(s, p, th, ',', last);
        assert forall|i: int| 0 <= i < head.len() implies is_identifier(#[trigger] head[i]) by {
            assert(head[i] == names[i]);
        }
        lemma_scan_names(head, s, p);
        lemma_scan_name(s, p + th.len() + 2, last);
        lemma_scan_separated(
            s,
            p,
            th,
            ',',
            last,
            names_tokens(head),
            seq![TokenModel::Ident(last)],
        );
        assert(names_tokens(head) + seq![TokenModel::Comma] + seq![TokenModel::Ident(last)]
            =~= names_tokens(names));
    }
}

/// The text of a name, a number, a boolean or a string is scanned as its one
/// token.
proof fn lemma_scan_atom(e: ExpressionModel, s: Seq<char>, p: int)
    requires
        parses_back(e),
        e is Identifier || (e is Lit && !(e->Lit_0 is Array) && !(e->Lit_0 is Hash)),
        0 <= p,
        p + expression_text(e).len() <= s.len(),
        s.subrange(p, p + expression_text(e).len()) == expression_text(e),
        clear_after(e, s, p + expression_text(e).len()),
    ensures
        scans(s, p, p + expression_text(e).len(), expression_tokens(e)),
{
    lemma_fixed_texts();
    lemma_keywords();
    match e {
        ExpressionModel::Identifier(name) => {
            lemma_scan_name(s, p, name);
        },
        ExpressionModel::Lit(literal) => {
            lemma_literal_text(e);
            match literal {
                LiteralModel::Integer(value) => {
                    lemma_scan_number(s, p, value as nat);
                },
                LiteralModel::Boolean(value) => {
                    let name = bool_text(value);
                    assert forall|i: int| 0 <= i < name.len() implies in_class(
                        CharClass::Name,
                        #[trigger] name[i],
                    ) by {}
                    lemma_scan_name(s, p, name);
                },
                LiteralModel::String(value) => {
                    lemma_scan_string(s, p, value);
                },
                _ => {},
            }
        },
        _ => {},
    }
}

/// Behind a text that a blank or a delimiter follows, nothing runs into the
/// text.
proof fn lemma_clear_after(e: ExpressionModel, s: Seq<char>, q: int)
    requires
        0 <= q < s.len(),
        is_space(s[q]) || is_delimiter(s[q]),
    ensures
        clear_after(e, s, q),
{
}

/// The text of an array or a hash literal is scanned as its tokens.
proof fn lemma_scan_collection(e: ExpressionModel, s: Seq<char>, p: int)
    requires
        parses_back(e),
        e is Lit && (e->Lit_0 is Array || e->Lit_0 is Hash),
        0 <= p,
        p + expression_text(e).len() <= s.len(),
        s.subrange(p, p + expression_text(e).len()) == expression_text(e),
    ensures
        scans(s, p, p + expression_text(e).len(), expression_tokens(e)),
    decreases e, 0nat,
{
    lemma_literal_text(e);
    match e {
        ExpressionModel::Lit(LiteralModel::Array(elements)) => {
            let inner = expressions_text(elements);
            lemma_wrapped_parts(s, p, '[', inner, ']');
            if elements.len() > 0 {
                lemma_clear_after(elements.last(), s, p + 1 + inner.len());
            }
            lemma_scan_expressions(elements, s, p + 1);
            lemma_scan_wrapped(s, p, '[', inner, ']', expressions_tokens(elements));
        },
        ExpressionModel::Lit(LiteralModel::Hash(pairs)) => {
            let inner = pairs_text(pairs);
            lemma_wrapped_parts(s, p, '{', inner, '}');
            if pairs.len() > 0 {
                lemma_clear_after(pairs.last().1, s, p + 1 + inner.len());
            }
            lemma_scan_pairs(pairs, s, p + 1);
            lemma_scan_wrapped(s, p, '{', inner, '}', pairs_tokens(pairs));
        },
        _ => {},
    }
}

/// The text of a prefix, a binary or an index expression is scanned as its
/// tokens.
proof fn lemma_scan_grouped(e: ExpressionModel, s: Seq<char>, p: int)
    requires
        parses_back(e),
        e is Prefix || e is Infix || e is Index,
        0 <= p,
        p + expression_text(e).len() <= s.len(),
        s.subrange(p, p + expression_text(e).len()) == expression_text(e),
    ensures
        scans(s, p, p + expression_text(e).len(), expression_tokens(e)),
    decreases e, 0nat,
{
    lemma_fixed_texts();
    match e {
        ExpressionModel::Prefix(operator, right) => {
            lemma_operator_text(operator);
            let tr = expression_text(*right);
            lemma_expression_text_start(*right);
            assert(operator_chars(operator).len() == 1);
            assert(expression_text(e) == seq!['('] + operator_chars(operator) + tr + seq![')']);
            lemma_prefix_parts(s, p, operator, tr);
            lemma_clear_after(*right, s, p + 2 + tr.len());
            lemma_scan_expression(*right, s, p + 2);
            lemma_scan_prefix(s, p, operator, tr, expression_tokens(*right));
        },
        ExpressionModel::Infix(operator, left, right) => {
            lemma_operator_text(operator);
            let tl = expression_text(*left);
            let tr = expression_text(*right);
            let op = operator_chars(operator);
            assert(expression_text(e) == seq!['('] + tl + seq![' '] + op + seq![' '] + tr + seq![
                ')',
            ]);
            lemma_infix_parts(s, p, operator, tl, tr);
            lemma_clear_after(*left, s, p + 1 + tl.len());
            lemma_clear_after(*right, s, p + 3 + tl.len() + op.len() + tr.len());
            lemma_scan_expression(*left, s, p + 1);
            lemma_scan_expression(*right, s, p + 3 + tl.len() + op.len());
            lemma_scan_infix(
                s,
                p,
                operator,
                tl,
                tr,
                expression_tokens(*left),
                expression_tokens(*right),
            );
        },
        ExpressionModel::Index(left, index) => {
            let tl = expression_text(*left);
            let ti = expression_text(*index);
            assert(expression_text(e) == seq!['('] + tl + seq!['['] + ti + seq![']', ')']);
            lemma_index_parts(s, p, tl, ti);
            lemma_clear_after(*left, s, p + 1 + tl.len());
            lemma_clear_after(*index, s, p + 2 + tl.len() + ti.len());
            lemma_scan_expression(*left, s, p + 1);
            lemma_scan_expression(*index, s, p + 2 + tl.len());
            lemma_scan_index(s, p, tl, ti, expression_tokens(*left), expression_tokens(*index));
        },
        _ => {},
    }
}

/// The text of a call is scanned as its tokens.
proof fn lemma_scan_call_expression(e: ExpressionModel, s: Seq<char>, p: int)
    requires
        parses_back(e),
        e is Call,
        0 <= p,
        p + expression_text(e).len() <= s.len(),
        s.subrange(p, p + expression_text(e).len()) == expression_text(e),
    ensures
        scans(s, p, p + expression_text(e).len(), expression_tokens(e)),
    decreases e, 0nat,
{
    lemma_fixed_texts();
    match e {
        ExpressionModel::Call(function, arguments) => {
            let tf = expression_text(*function);
            let ta = expressions_text(arguments);
            assert(expression_text(e) == tf + seq!['('] + ta + seq![')']);
            lemma_call_parts(s, p, tf, ta);
            lemma_clear_after(*function, s, p + tf.len());
            if arguments.len() > 0 {
                lemma_clear_after(arguments.last(), s, p + 1 + tf.len() + ta.len());
            }
            lemma_scan_expression(*function, s, p);
            lemma_scan_expressions(arguments, s, p + 1 + tf.len());
            lemma_scan_call(
                s,
                p,
                tf,
                ta,
                expression_tokens(*function),
                expressions_tokens(arguments),
            );
        },
        _ => {},
    }
}

/// The text of a block, with the blanks and braces around it, is scanned as
/// the tokens of the block.
proof fn lemma_scan_block(statements: Seq<StatementModel>, s: Seq<char>, p: int)
    requires
        block_parses_back(statements),
        0 <= p,
        p + 5 + statements_text(statements).len() <= s.len(),
        s.subrange(p, p + 5 + statements_text(statements).len()) == seq![' ', '{', ' ']
            + statements_text(statements) + seq![' ', '}'],
    ensures
        scans(s, p, p + 5 + statements_text(statements).len(), block_tokens(statements)),
    decreases statements, 4nat,
{
    let tb = statements_text(statements);
    lemma_braced_parts(s, p, tb);
    if statements.len() > 0 {
        match statements.last() {
            StatementModel::Expr(value) => {
                lemma_clear_after(value, s, p + 3 + tb.len());
            },
            _ => {},
        }
    }
    lemma_scan_statements(statements, s, p + 3);
    lemma_scan_braced(s, p, tb, statements_tokens(statements));
}

/// The text of an `if` expression is scanned as its tokens.
proof fn lemma_scan_if(e: ExpressionModel, s: Seq<char>, p: int)
    requires
        parses_back(e),
        e is If,
        0 <= p,
        p + expression_text(e).len() <= s.len(),
        s.subrange(p, p + expression_text(e).len()) == expression_text(e),
    ensures
        scans(s, p, p + expression_text(e).len(), expression_tokens(e)),
    decreases e, 0nat,
{
    lemma_fixed_texts();
    match e {
        ExpressionModel::If(condition, consequence, alternative) => {
            let tc = expression_text(*condition);
            let start = seq!['i', 'f', ' '] + tc;
            let first = seq![' ', '{', ' '] + statements_text(consequence) + seq![' ', '}'];
            let head = "if "@ + tc + " { "@ + statements_text(consequence) + " }"@;
            assert(head =~= start + first);
            let pb = p + 3 + tc.len();
            let pe = pb + first.len();
            match alternative {
                Some(block) => {
                    let word = seq![' ', 'e', 'l', 's', 'e'];
                    let second = seq![' ', '{', ' '] + statements_text(block) + seq![' ', '}'];
                    assert(expression_text(e) == head + " else { "@ + statements_text(block)
                        + " }"@);
                    assert(expression_text(e) =~= start + first + word + second);
                    lemma_four_parts(s, p, start, first, word, second);
                    lemma_two_parts(s, p, seq!['i', 'f', ' '], tc);
                    lemma_scan_expression(*condition, s, p + 3);
                    lemma_scan_if_head(s, p, tc, expression_tokens(*condition));
                    lemma_scan_block(consequence, s, pb);
                    lemma_first_of_part(s, pe + 5, second);
                    lemma_scan_else(s, pe);
                    lemma_scan_block(block, s, pe + 5);
                    lemma_scans_both(
                        s,
                        p,
                        pb,
                        pe,
                        seq![TokenModel::If] + expression_tokens(*condition),
                        block_tokens(consequence),
                    );
                    lemma_scans_both(
                        s,
                        p,
                        pe,
                        pe + 5,
                        seq![TokenModel::If] + expression_tokens(*condition) + block_tokens(
                            consequence,
                        ),
                        seq![TokenModel::Else],
                    );
                    lemma_scans_both(
                        s,
                        p,
                        pe + 5,
                        pe + 5 + second.len(),
                        seq![TokenModel::If] + expression_tokens(*condition) + block_tokens(
                            consequence,
                        ) + seq![TokenModel::Else],
                        block_tokens(block),
                    );
                },
                None => {
                    assert(expression_text(e) == head);
                    lemma_two_parts(s, p, start, first);
                    lemma_two_parts(s, p, seq!['i', 'f', ' '], tc);
                    lemma_scan_expression(*condition, s, p + 3);
                    lemma_scan_if_head(s, p, tc, expression_tokens(*condition));
                    lemma_scan_block(consequence, s, pb);
                    lemma_scans_both(
                        s,
                        p,
                        pb,
                        pe,
                        seq![TokenModel::If] + expression_tokens(*condition),
                        block_tokens(consequence),
                    );
                },
            }
        },
        _ => {},
    }
}

/// The text of a function literal is scanned as its tokens.
proof fn lemma_scan_fn(e: ExpressionModel, s: Seq<char>, p: int)
    requires
        parses_back(e),
        e is Fn,
        0 <= p,
        p + expression_text(e).len() <= s.len(),
        s.subrange(p, p + expression_text(e).len()) == expression_text(e),
    ensures
        scans(s, p, p + expression_text(e).len(), expression_tokens(e)),
    decreases e, 0nat,
{
    lemma_fixed_texts();
    match e {
        ExpressionModel::Fn(parameters, body) => {
            let tn = names_text(parameters);
            let start = seq!['f', 'n', '('] + tn + seq![')'];
            let block = seq![' ', '{', ' '] + statements_text(body) + seq![' ', '}'];
            assert(expression_text(e) == "fn("@ + tn + ") { "@ + statements_text(body) + " }"@);
            assert(expression_text(e) =~= start + block);
            lemma_two_parts(s, p, start, block);
            lemma_three_parts(s, p, seq!['f', 'n', '('], tn, seq![')']);
            lemma_one_char(s, p + 3 + tn.len(), ')');
            lemma_scan_names(parameters, s, p + 3);
            lemma_scan_fn_head(s, p, tn, names_tokens(parameters));
            lemma_scan_block(body, s, p + 4 + tn.len());
            lemma_scans_both(
                s,
                p,
                p + 4 + tn.len(),
                p + 4 + tn.len() + block.len(),
                seq![TokenModel::Function, TokenModel::LParen] + names_tokens(parameters) + seq![
                    TokenModel::RParen,
                ],
                block_tokens(body),
            );
        },
        _ => {},
    }
}

/// The text of an expression that parses back is scanned as the tokens of
/// the expression, where nothing that follows the text runs into it.
pub proof fn lemma_scan_expression(e: ExpressionModel, s: Seq<char>, p: int)
    requires
        parses_back(e),
        0 <= p,
        p + expression_text(e).len() <= s.len(),
        s.subrange(p, p + expression_text(e).len()) == expression_text(e),
        clear_after(e, s, p + expression_text(e).len()),
    ensures
        scans(s, p, p + expression_text(e).len(), expression_tokens(e)),
    decreases e, 1nat,
{
    if e is Prefix || e is Infix || e is Index {
        lemma_scan_grouped(e, s, p);
    } else if e is Call {
        lemma_scan_call_expression(e, s, p);
    } else if e is If {
        lemma_scan_if(e, s, p);
    } else if e is Fn {
        lemma_scan_fn(e, s, p);
    } else if e is Lit && (e->Lit_0 is Array || e->Lit_0 is Hash) {
        lemma_scan_collection(e, s, p);
    } else {
        lemma_scan_atom(e, s, p);
    }
}

/// The text of a list of expressions is scanned as their tokens with commas
/// between them.
pub proof fn lemma_scan_expressions(expressions: Seq<ExpressionModel>, s: Seq<char>, p: int)
    requires
        forall|i: int| 0 <= i < expressions.len() ==> parses_back(#[trigger] expressions[i]),
        0 <= p,
        p + expressions_text(expressions).len() <= s.len(),
        s.subrange(p, p + expressions_text(expressions).len()) == expressions_text(expressions),
        expressions.len() > 0 ==> clear_after(
            expressions.last(),
            s,
            p + expressions_text(expressions).len(),
        ),
    ensures
        scans(s, p, p + expressions_text(expressions).len(), expressions_tokens(expressions)),
    decreases expressions, 2nat,
{
    lemma_fixed_texts();
    if expressions.len() == 0 {
        lemma_scans_nothing(s, p);
    } else if expressions.len() == 1 {
        lemma_scan_expression(expressions[0], s, p);
    } else {
        let head = expressions.drop_last();
        let th = expressions_text(head);
        let last = expressions.last();
        let tl = expression_text(last);
        assert(expressions_text(expressions) == th + seq![',', ' '] + tl);
        lemma_separated_parts(s, p, th, ',', tl);
        assert forall|i: int| 0 <= i < head.len() implies parses_back(#[trigger] head[i]) by {
            assert(head[i] == expressions[i]);
        }
        lemma_clear_after(head.last(), s, p + th.len());
        lemma_scan_expressions(head, s, p);
        lemma_scan_expression(last, s, p + th.len() + 2);
        lemma_scan_separated(
            s,
            p,
            th,
            ',',
            tl,
            expressions_tokens(head),
            expression_tokens(last),
        );
    }
}

/// The text of a pair of a hash literal is scanned as the tokens of the key,
/// a colon and the tokens of the value.
proof fn lemma_scan_pair(pair: (ExpressionModel, ExpressionModel), s: Seq<char>, p: int)
    requires
        parses_back(pair.0),
        parses_back(pair.1),
        0 <= p,
        p + pair_text(pair).len() <= s.len(),
        s.subrange(p, p + pair_text(pair).len()) == pair_text(pair),
        clear_after(pair.1, s, p + pair_text(pair).len()),
    ensures
        scans(s, p, p + pair_text(pair).len(), pair_tokens(pair)),
    decreases pair, 2nat,
{
    lemma_fixed_texts();
    let tk = expression_text(pair.0);
    let tv = expression_text(pair.1);
    assert(pair_text(pair) == tk + seq![':', ' '] + tv);
    lemma_separated_parts(s, p, tk, ':', tv);
    lemma_clear_after(pair.0, s, p + tk.len());
    lemma_scan_expression(pair.0, s, p);
    lemma_scan_expression(pair.1, s, p + tk.len() + 2);
    lemma_scan_separated(s, p, tk, ':', tv, expression_tokens(pair.0), expression_tokens(pair.1));
}

/// The text of the pairs of a hash literal is scanned as their tokens with
/// commas between them.
pub proof fn lemma_scan_pairs(pairs: Seq<(ExpressionModel, ExpressionModel)>, s: Seq<char>, p: int)
    requires
        forall|i: int|
            0 <= i < pairs.len() ==> parses_back((#[trigger] pairs[i]).0) && parses_back(
                pairs[i].1,
            ),
        0 <= p,
        p + pairs_text(pairs).len() <= s.len(),
        s.subrange(p, p + pairs_text(pairs).len()) == pairs_text(pairs),
        pairs.len() > 0 ==> clear_after(pairs.last().1, s, p + pairs_text(pairs).len()),
    ensures
        scans(s, p, p + pairs_text(pairs).len(), pairs_tokens(pairs)),
    decreases pairs, 3nat,
{
    lemma_fixed_texts();
    if pairs.len() == 0 {
        lemma_scans_nothing(s, p);
    } else if pairs.len() == 1 {
        lemma_scan_pair(pairs[0], s, p);
    } else {
        let head = pairs.drop_last();
        let th = pairs_text(head);
        let last = pairs.last();
        let tl = pair_text(last);
        assert(pairs_text(pairs) == th + seq![',', ' '] + tl);
        lemma_separated_parts(s, p, th, ',', tl);
        assert forall|i: int| 0 <= i < head.len() implies parses_back((#[trigger] head[i]).0)
            && parses_back(head[i].1) by {
            assert(head[i] == pairs[i]);
        }
        lemma_clear_after(head.last().1, s, p + th.len());
        lemma_scan_pairs(head, s, p);
        lemma_scan_pair(last, s, p + th.len() + 2);
        lemma_scan_separated(s, p, th, ',', tl, pairs_tokens(head), pair_tokens(last));
    }
}

/// The text of a statement that parses back is scanned as the tokens of the
/// statement, where nothing that follows the text runs into it.
pub proof fn lemma_scan_statement(statement: StatementModel, s: Seq<char>, p: int)
    requires
        statement_parses_back(statement),
        0 <= p,
        p + statement_text(statement).len() <= s.len(),
        s.subrange(p, p + statement_text(statement).len()) == statement_text(statement),
        clear_after_statement(statement, s, p + statement_text(statement).len()),
    ensures
        scans(s, p, p + statement_text(statement).len(), statement_tokens(statement)),
    decreases statement, 2nat,
{
    lemma_fixed_texts();
    match statement {
        StatementModel::Let(name, value) => {
            let te = expression_text(value);
            assert(statement_text(statement) == seq!['l', 'e', 't', ' '] + name + seq![
                ' ',
                '=',
                ' ',
            ] + te + seq![';']);
            lemma_let_parts(s, p, name, te);
            lemma_clear_after(value, s, p + 7 + name.len() + te.len());
            lemma_scan_expression(value, s, p + 7 + name.len());
            lemma_scan_let(s, p, name, te, expression_tokens(value));
        },
        StatementModel::Return(value) => {
            let te = expression_text(value);
            assert(statement_text(statement) == seq!['r', 'e', 't', 'u', 'r', 'n', ' '] + te
                + seq![';']);
            lemma_return_parts(s, p, te);
            lemma_clear_after(value, s, p + 7 + te.len());
            lemma_scan_expression(value, s, p + 7);
            lemma_scan_return(s, p, te, expression_tokens(value));
        },
        StatementModel::Expr(value) => {
            lemma_scan_expression(value, s, p);
        },
    }
}

/// Behind a statement that another one may follow, the text of the other
/// one does not run into the text of the first.
proof fn lemma_clear_before(
    before: StatementModel,
    after: StatementModel,
    s: Seq<char>,
    q: int,
)
    requires
        may_follow(before, after),
        statement_parses_back(after),
        0 <= q,
        q + statement_text(after).len() <= s.len(),
        s.subrange(q, q + statement_text(after).len()) == statement_text(after),
    ensures
        clear_after_statement(before, s, q),
{
    lemma_statement_text_start(after);
    lemma_first_of_part(s, q, statement_text(after));
}

/// The text of a list of statements that parses back is scanned as the
/// tokens of the statements.
pub proof fn lemma_scan_statements(statements: Seq<StatementModel>, s: Seq<char>, p: int)
    requires
        block_parses_back(statements),
        0 <= p,
        p + statements_text(statements).len() <= s.len(),
        s.subrange(p, p + statements_text(statements).len()) == statements_text(statements),
        statements.len() > 0 ==> clear_after_statement(
            statements.last(),
            s,
            p + statements_text(statements).len(),
        ),
    ensures
        scans(s, p, p + statements_text(statements).len(), statements_tokens(statements)),
    decreases statements, 3nat,
{
    if statements.len() == 0 {
        lemma_scans_nothing(s, p);
    } else {
        let head = statements.drop_last();
        let th = statements_text(head);
        let last = statements.last();
        let tl = statement_text(last);
        lemma_two_parts(s, p, th, tl);
        assert(block_parses_back(head)) by {
            assert forall|i: int| 0 <= i < head.len() implies statement_parses_back(
                #[trigger] head[i],
            ) by {
                assert(head[i] == statements[i]);
            }
            assert forall|i: int| 0 <= i < head.len() - 1 implies may_follow(
                #[trigger] head[i],
                head[i + 1],
            ) by {
                assert(head[i] == statements[i]);
                assert(head[i + 1] == statements[i + 1]);
            }
        }
        if head.len() > 0 {
            assert(head.last() == statements[statements.len() - 2]);
            assert(may_follow(statements[statements.len() - 2], statements[statements.len() - 1]));
            lemma_clear_before(head.last(), last, s, p + th.len());
        }
        lemma_scan_statements(head, s, p);
        lemma_scan_statement(last, s, p + th.len());
        lemma_scans_both(
            s,
            p,
            p + th.len(),
            p + th.len() + tl.len(),
            statements_tokens(head),
            statement_tokens(last),
        );
    }
}

} // verus!
