//! Serialization back to CSS text (CSS Syntax Level 3, "Serialization").
//!
//! Whitespace and comments are not preserved (tokenization discards them),
//! but escaping is: a serialized identifier, string or url re-tokenizes to
//! the value it started from. Where two values that stood apart in the
//! source (`a/**/b`) would run together when written side by side, an empty
//! comment `/**/` is written between them.

use vstd::prelude::*;
use vstd::string::*;

use crate::parser::{
    AtRule, BlockKind, ComponentValue, Declaration, DeclarationListItem, Rule, SimpleBlock,
    Stylesheet,
};
use crate::text::{char_from_ascii, is_digit, is_name, push_char, spec_is_digit, spec_is_name, str_to_chars};
use crate::token::{SpecToken, Token};

verus! {

// ---------------------------------------------------------------------------
// What each value serializes to
// ---------------------------------------------------------------------------

pub open spec fn spec_needs_control_escape(c: char) -> bool {
    ('\u{1}' <= c && c <= '\u{1f}') || c == '\u{7f}'
}

/// The lower-case hex digit for `d < 16`.
pub open spec fn hex_char(d: nat) -> char {
    if d < 10 {
        (('0' as u32) + d) as char
    } else {
        (('a' as u32) + d - 10) as char
    }
}

/// `v` in lower-case hex, without leading zeros.
pub open spec fn hex_lower(v: nat) -> Seq<char>
    decreases v,
{
    if v < 16 {
        seq![hex_char(v)]
    } else {
        hex_lower(v / 16).push(hex_char(v % 16))
    }
}

/// `c` written as a hex escape: `\`, its code in hex, and a space.
pub open spec fn escape_out(c: char) -> Seq<char> {
    seq!['\\'] + hex_lower(c as u32 as nat) + seq![' ']
}

/// How the character at index `i` of a name is written.
pub open spec fn name_char_out(s: Seq<char>, i: int, check_leading_digit: bool) -> Seq<char> {
    let c = s[i];
    if c == '\0' {
        seq!['\u{FFFD}']
    } else if spec_needs_control_escape(c) {
        escape_out(c)
    } else if check_leading_digit && spec_is_digit(c) && (i == 0 || (i == 1 && s[0] == '-')) {
        escape_out(c)
    } else if spec_is_name(c) {
        seq![c]
    } else {
        seq!['\\', c]
    }
}

/// The first `n` characters of a name, written.
pub open spec fn name_prefix_out(s: Seq<char>, n: int, check_leading_digit: bool) -> Seq<char>
    decreases n,
{
    if n <= 0 {
        seq![]
    } else {
        name_prefix_out(s, n - 1, check_leading_digit) + name_char_out(s, n - 1, check_leading_digit)
    }
}

/// A name (an identifier's or hash's text), escaping what isn't a plain name
/// code point. `check_leading_digit` adds the identifier-only rule that a
/// name can't start with a digit, nor with `-` then a digit.
pub open spec fn name_out(s: Seq<char>, check_leading_digit: bool) -> Seq<char> {
    if s == seq!['-'] {
        seq!['\\', '-']
    } else {
        name_prefix_out(s, s.len() as int, check_leading_digit)
    }
}

pub open spec fn ident_out(s: Seq<char>) -> Seq<char> {
    name_out(s, true)
}

pub open spec fn string_char_out(c: char) -> Seq<char> {
    if c == '\0' {
        seq!['\u{FFFD}']
    } else if c == '"' || c == '\\' {
        seq!['\\', c]
    } else if spec_needs_control_escape(c) {
        escape_out(c)
    } else {
        seq![c]
    }
}

/// The characters of `s`, each escaped as inside a string.
pub open spec fn string_body_out(s: Seq<char>) -> Seq<char>
    decreases s.len(),
{
    if s.len() == 0 {
        seq![]
    } else {
        string_body_out(s.drop_last()) + string_char_out(s.last())
    }
}

/// A string token: double quotes around the escaped text.
pub open spec fn string_out(s: Seq<char>) -> Seq<char> {
    seq!['"'] + string_body_out(s) + seq!['"']
}

pub open spec fn url_char_out(c: char) -> Seq<char> {
    if c == '\0' {
        seq!['\u{FFFD}']
    } else if c == '"' || c == '\'' || c == '(' || c == ')' || c == '\\' || c == ' ' || c == '\t' {
        seq!['\\', c]
    } else if spec_needs_control_escape(c) {
        escape_out(c)
    } else {
        seq![c]
    }
}

/// The characters of `s`, each escaped as inside a bare url.
pub open spec fn url_body_out(s: Seq<char>) -> Seq<char>
    decreases s.len(),
{
    if s.len() == 0 {
        seq![]
    } else {
        url_body_out(s.drop_last()) + url_char_out(s.last())
    }
}

/// A bare `url(…)` token.
pub open spec fn url_out(s: Seq<char>) -> Seq<char> {
    seq!['u', 'r', 'l', '('] + url_body_out(s) + seq![')']
}

/// A dimension's unit. A unit starting with `e`/`E` then a digit, `+` or
/// `-` gets its first letter escaped, so that it can't be read back as the
/// number's exponent; otherwise it is written as an identifier, a leading
/// digit (or `-` then a digit) escaped so that it can't be read back as part
/// of the number.
pub open spec fn unit_out(unit: Seq<char>) -> Seq<char> {
    if unit.len() >= 2 && (unit[0] == 'e' || unit[0] == 'E') && (spec_is_digit(unit[1]) || unit[1]
        == '+' || unit[1] == '-') {
        escape_out(unit[0]) + name_out(unit.drop_first(), false)
    } else {
        name_out(unit, true)
    }
}

pub open spec fn token_out(t: SpecToken) -> Seq<char> {
    match t {
        SpecToken::Ident(s) => ident_out(s),
        SpecToken::Function(s) => ident_out(s).push('('),
        SpecToken::AtKeyword(s) => seq!['@'] + ident_out(s),
        SpecToken::Hash { value, is_id } => seq!['#'] + name_out(value, is_id),
        SpecToken::String(s) => string_out(s),
        SpecToken::BadString => seq!['"'],
        SpecToken::Url(s) => url_out(s),
        SpecToken::BadUrl => seq!['u', 'r', 'l', '(', ')'],
        SpecToken::Delim(c) => seq![c],
        SpecToken::Number { repr, .. } => repr,
        SpecToken::Percentage { repr } => repr.push('%'),
        SpecToken::Dimension { repr, unit, .. } => repr + unit_out(unit),
        SpecToken::Whitespace => seq![' '],
        SpecToken::Cdo => seq!['<', '!', '-', '-'],
        SpecToken::Cdc => seq!['-', '-', '>'],
        SpecToken::Colon => seq![':'],
        SpecToken::Semicolon => seq![';'],
        SpecToken::Comma => seq![','],
        SpecToken::LeftSquare => seq!['['],
        SpecToken::RightSquare => seq![']'],
        SpecToken::LeftParen => seq!['('],
        SpecToken::RightParen => seq![')'],
        SpecToken::LeftCurly => seq!['{'],
        SpecToken::RightCurly => seq!['}'],
    }
}

pub open spec fn open_char(kind: BlockKind) -> char {
    match kind {
        BlockKind::Curly => '{',
        BlockKind::Square => '[',
        BlockKind::Paren => '(',
    }
}

pub open spec fn close_char(kind: BlockKind) -> char {
    match kind {
        BlockKind::Curly => '}',
        BlockKind::Square => ']',
        BlockKind::Paren => ')',
    }
}

pub open spec fn cv_out(v: ComponentValue) -> Seq<char>
    decreases v,
{
    match v {
        ComponentValue::Token(t) => token_out(t@),
        ComponentValue::Function { name, args } => ident_out(name@).push('(') + vals_out(args@).push(
            ')',
        ),
        ComponentValue::Block(b) => seq![open_char(b.kind)] + vals_out(b.values@).push(close_char(b.kind)),
    }
}

/// The token a component value's text begins with.
pub open spec fn first_tok(v: ComponentValue) -> SpecToken {
    match v {
        ComponentValue::Token(t) => t@,
        ComponentValue::Function { name, .. } => SpecToken::Function(name@),
        ComponentValue::Block(b) => match b.kind {
            BlockKind::Curly => SpecToken::LeftCurly,
            BlockKind::Square => SpecToken::LeftSquare,
            BlockKind::Paren => SpecToken::LeftParen,
        },
    }
}

/// The token a component value's text ends with.
pub open spec fn last_tok(v: ComponentValue) -> SpecToken {
    match v {
        ComponentValue::Token(t) => t@,
        ComponentValue::Function { .. } => SpecToken::RightParen,
        ComponentValue::Block(b) => match b.kind {
            BlockKind::Curly => SpecToken::RightCurly,
            BlockKind::Square => SpecToken::RightSquare,
            BlockKind::Paren => SpecToken::RightParen,
        },
    }
}

pub open spec fn is_numeric_tok(b: SpecToken) -> bool {
    b is Number || b is Percentage || b is Dimension
}

/// Tokens whose text, written right after a name character, would be read
/// as part of that name: identifier-like and numeric tokens, `-` and `-->`.
pub open spec fn runs_into_name(b: SpecToken) -> bool {
    ||| b is Ident
    ||| b is Function
    ||| b is Url
    ||| b is BadUrl
    ||| is_numeric_tok(b)
    ||| b is Cdc
    ||| b == SpecToken::Delim('-')
}

/// Whether `a` written directly before `b` would be read back as other
/// tokens (CSS Syntax §9, with `-->` added where it would merge): a name
/// runs into what follows it, a number into a name, a number or `%`,
/// `#`, `-` and `@` start a name, `.` and `+` start a number, `/` then `*`
/// opens a comment, `<` then `!` begins `<!--`, `--` then `>` is `-->`, and
/// two runs of whitespace become one.
pub open spec fn needs_sep(a: SpecToken, b: SpecToken) -> bool {
    match a {
        SpecToken::Whitespace => b == SpecToken::Whitespace,
        SpecToken::Ident(s) => runs_into_name(b) || b == SpecToken::LeftParen || (s == seq!['-', '-']
            && b == SpecToken::Delim('>')),
        SpecToken::AtKeyword(_) => runs_into_name(b),
        SpecToken::Hash { .. } => runs_into_name(b),
        SpecToken::Dimension { .. } => runs_into_name(b),
        SpecToken::Number { .. } => (runs_into_name(b) && b != SpecToken::Delim('-')) || b == SpecToken::Delim(
            '%',
        ),
        SpecToken::Delim(c) => {
            if c == '#' || c == '-' {
                runs_into_name(b)
            } else if c == '@' {
                runs_into_name(b) && !is_numeric_tok(b)
            } else if c == '.' || c == '+' {
                is_numeric_tok(b)
            } else if c == '/' {
                b == SpecToken::Delim('*')
            } else if c == '<' {
                b == SpecToken::Delim('!')
            } else {
                false
            }
        },
        _ => false,
    }
}

/// The empty comment written between two tokens that would otherwise merge.
pub open spec fn separator_out() -> Seq<char> {
    seq!['/', '*', '*', '/']
}

/// What stands between `a` and the value `b` written right after it.
pub open spec fn sep_out(a: SpecToken, b: ComponentValue) -> Seq<char> {
    if needs_sep(a, first_tok(b)) {
        separator_out()
    } else {
        seq![]
    }
}

/// The values one after another, with an empty comment between two that
/// would otherwise run together.
pub open spec fn vals_out(vs: Seq<ComponentValue>) -> Seq<char>
    decreases vs,
{
    if vs.len() == 0 {
        seq![]
    } else {
        vals_out(vs.drop_last()) + (if vs.len() >= 2 {
            sep_out(last_tok(vs[vs.len() - 2]), vs.last())
        } else {
            seq![]
        }) + cv_out(vs.last())
    }
}

pub open spec fn block_out(b: SimpleBlock) -> Seq<char> {
    seq![open_char(b.kind)] + vals_out(b.values@).push(close_char(b.kind))
}

pub open spec fn important_out() -> Seq<char> {
    seq!['!', 'i', 'm', 'p', 'o', 'r', 't', 'a', 'n', 't']
}

pub open spec fn declaration_out(d: Declaration) -> Seq<char> {
    ident_out(d.name@).push(':') + vals_out(d.value@) + if d.important {
        important_out()
    } else {
        seq![]
    }
}

pub open spec fn at_rule_out(a: AtRule) -> Seq<char> {
    seq!['@'] + ident_out(a.name@) + (if a.prelude@.len() > 0 {
        sep_out(SpecToken::AtKeyword(a.name@), a.prelude@[0])
    } else {
        seq![]
    }) + vals_out(a.prelude@) + match a.block {
        Some(b) => block_out(b),
        None => seq![';'],
    }
}

pub open spec fn rule_out(r: Rule) -> Seq<char> {
    match r {
        Rule::Qualified(q) => vals_out(q.prelude@) + block_out(q.block),
        Rule::At(a) => at_rule_out(a),
    }
}

pub open spec fn rules_out(rs: Seq<Rule>) -> Seq<char>
    decreases rs.len(),
{
    if rs.len() == 0 {
        seq![]
    } else {
        rules_out(rs.drop_last()) + rule_out(rs.last())
    }
}

pub open spec fn item_out(item: DeclarationListItem) -> Seq<char> {
    match item {
        DeclarationListItem::Declaration(d) => declaration_out(d),
        DeclarationListItem::AtRule(a) => at_rule_out(a),
    }
}

/// The items, separated by `;`.
pub open spec fn items_out(items: Seq<DeclarationListItem>) -> Seq<char>
    decreases items.len(),
{
    if items.len() == 0 {
        seq![]
    } else if items.len() == 1 {
        item_out(items[0])
    } else {
        items_out(items.drop_last()).push(';') + item_out(items.last())
    }
}

// ---------------------------------------------------------------------------
// Writing
// ---------------------------------------------------------------------------

#[verifier::when_used_as_spec(spec_needs_control_escape)]
fn needs_control_escape(c: char) -> (r: bool)
    ensures
        r == spec_needs_control_escape(c),
{
    ('\u{1}' <= c && c <= '\u{1f}') || c == '\u{7f}'
}

fn hex_digit_char(d: u32) -> (r: char)
    requires
        d < 16,
    ensures
        r == hex_char(d as nat),
{
    if d < 10 {
        char_from_ascii(('0' as u32) + d)
    } else {
        char_from_ascii(('a' as u32) + d - 10)
    }
}

fn push_hex(out: &mut String, v: u32)
    ensures
        final(out)@ == old(out)@ + hex_lower(v as nat),
    decreases v,
{
    if v >= 16 {
        push_hex(out, v / 16);
    }
    let ghost mid = out@;
    push_char(out, hex_digit_char(v % 16));
    proof {
        if v >= 16 {
            assert(old(out)@ + hex_lower(v as nat) =~= mid.push(hex_char((v % 16) as nat)));
        } else {
            assert(old(out)@ + hex_lower(v as nat) =~= mid.push(hex_char((v % 16) as nat)));
        }
    }
}

/// Write `c` as a hex escape: `\`, its code in lower-case hex, a space.
fn escape_code_point(c: char, out: &mut String)
    ensures
        final(out)@ == old(out)@ + escape_out(c),
{
    push_char(out, '\\');
    let ghost a = out@;
    push_hex(out, c as u32);
    let ghost b = out@;
    push_char(out, ' ');
    assert(old(out)@ + escape_out(c) =~= out@);
}

fn push2(out: &mut String, a: char, b: char)
    ensures
        final(out)@ == old(out)@ + seq![a, b],
{
    push_char(out, a);
    push_char(out, b);
    assert(old(out)@ + seq![a, b] =~= out@);
}

/// Write a name, escaping whatever isn't a plain name code point.
fn serialize_name(s: &Vec<char>, out: &mut String, check_leading_digit: bool)
    ensures
        final(out)@ == old(out)@ + name_out(s@, check_leading_digit),
{
    if s.len() == 1 && s[0] == '-' {
        assert(s@ =~= seq!['-']);
        push2(out, '\\', '-');
        return;
    }
    assert(s@ != seq!['-']) by {
        if s@ == seq!['-'] {
            assert(s@.len() == 1 && s@[0] == '-');
        }
    }
    let mut i: usize = 0;
    while i < s.len()
        invariant
            0 <= i <= s.len(),
            out@ == old(out)@ + name_prefix_out(s@, i as int, check_leading_digit),
        decreases s.len() - i,
    {
        let c = s[i];
        let ghost before = out@;
        if c == '\0' {
            push_char(out, '\u{FFFD}');
        } else if needs_control_escape(c) {
            escape_code_point(c, out);
        } else if check_leading_digit && is_digit(c) && (i == 0 || (i == 1 && s[0] == '-')) {
            escape_code_point(c, out);
        } else if is_name(c) {
            push_char(out, c);
        } else {
            push2(out, '\\', c);
        }
        assert(out@ == before + name_char_out(s@, i as int, check_leading_digit));
        assert(old(out)@ + name_prefix_out(s@, i + 1, check_leading_digit) =~= out@);
        i = i + 1;
    }
}

/// Write `s` as an identifier.
pub fn serialize_ident(s: &str, out: &mut String)
    ensures
        final(out)@ == old(out)@ + ident_out(s@),
{
    serialize_name(&str_to_chars(s), out, true);
}

/// Write `s` as a double-quoted string token.
pub fn serialize_string(s: &str, out: &mut String)
    ensures
        final(out)@ == old(out)@ + string_out(s@),
{
    let v = str_to_chars(s);
    push_char(out, '"');
    let ghost start = out@;
    let mut i: usize = 0;
    while i < v.len()
        invariant
            0 <= i <= v.len(),
            out@ == start + string_body_out(v@.take(i as int)),
        decreases v.len() - i,
    {
        let c = v[i];
        let ghost before = out@;
        if c == '\0' {
            push_char(out, '\u{FFFD}');
        } else if c == '"' || c == '\\' {
            push2(out, '\\', c);
        } else if needs_control_escape(c) {
            escape_code_point(c, out);
        } else {
            push_char(out, c);
        }
        assert(v@.take(i + 1).drop_last() =~= v@.take(i as int));
        assert(out@ =~= start + string_body_out(v@.take(i + 1)));
        i = i + 1;
    }
    push_char(out, '"');
    assert(v@.take(v.len() as int) =~= v@);
    assert(old(out)@ + string_out(s@) =~= out@);
}

/// Write `s` as a bare `url(…)` token, escaping whitespace, quotes,
/// parentheses and backslash: a newline, carriage return or form feed as a
/// hex escape (a backslash before one would not be read as an escape), so
/// that the text always reads back as a url token.
pub fn serialize_url(s: &str, out: &mut String)
    ensures
        final(out)@ == old(out)@ + url_out(s@),
{
    let v = str_to_chars(s);
    push2(out, 'u', 'r');
    push2(out, 'l', '(');
    let ghost start = out@;
    let mut i: usize = 0;
    while i < v.len()
        invariant
            0 <= i <= v.len(),
            out@ == start + url_body_out(v@.take(i as int)),
        decreases v.len() - i,
    {
        let c = v[i];
        let ghost before = out@;
        if c == '\0' {
            push_char(out, '\u{FFFD}');
        } else if c == '"' || c == '\'' || c == '(' || c == ')' || c == '\\' || c == ' ' || c == '\t' {
            push2(out, '\\', c);
        } else if needs_control_escape(c) {
            escape_code_point(c, out);
        } else {
            push_char(out, c);
        }
        assert(v@.take(i + 1).drop_last() =~= v@.take(i as int));
        assert(out@ =~= start + url_body_out(v@.take(i + 1)));
        i = i + 1;
    }
    push_char(out, ')');
    assert(v@.take(v.len() as int) =~= v@);
    assert(old(out)@ + url_out(s@) =~= out@);
}

/// Write a dimension's unit, guarding against it being read back as the
/// number's exponent.
pub fn serialize_dimension_unit(unit: &str, out: &mut String)
    ensures
        final(out)@ == old(out)@ + unit_out(unit@),
{
    let v = str_to_chars(unit);
    if v.len() >= 2 && (v[0] == 'e' || v[0] == 'E') && (is_digit(v[1]) || v[1] == '+' || v[1] == '-') {
        escape_code_point(v[0], out);
        let mut rest: Vec<char> = Vec::new();
        let mut i: usize = 1;
        while i < v.len()
            invariant
                1 <= i <= v.len(),
                rest@ == v@.subrange(1, i as int),
            decreases v.len() - i,
        {
            rest.push(v[i]);
            i = i + 1;
        }
        assert(rest@ =~= v@.drop_first());
        let ghost mid = out@;
        serialize_name(&rest, out, false);
        assert(old(out)@ + unit_out(unit@) =~= out@);
    } else {
        serialize_name(&v, out, true);
    }
}

fn push_string(out: &mut String, s: &String)
    ensures
        final(out)@ == old(out)@ + s@,
{
    out.append(s.as_str());
}

/// Write a token back as CSS text.
pub fn serialize_token(t: &Token, out: &mut String)
    ensures
        final(out)@ == old(out)@ + token_out(t@),
{
    let ghost o = out@;
    match t {
        Token::Ident(s) => serialize_ident(s.as_str(), out),
        Token::Function(s) => {
            serialize_ident(s.as_str(), out);
            push_char(out, '(');
            assert(o + ident_out(s@).push('(') =~= out@);
        },
        Token::AtKeyword(s) => {
            push_char(out, '@');
            serialize_ident(s.as_str(), out);
            assert(o + (seq!['@'] + ident_out(s@)) =~= out@);
        },
        Token::Hash { value, is_id } => {
            push_char(out, '#');
            serialize_name(&str_to_chars(value.as_str()), out, *is_id);
            assert(o + (seq!['#'] + name_out(value@, *is_id)) =~= out@);
        },
        Token::String(s) => serialize_string(s.as_str(), out),
        Token::BadString => push_char(out, '"'),
        Token::Url(s) => serialize_url(s.as_str(), out),
        Token::BadUrl => {
            push2(out, 'u', 'r');
            push2(out, 'l', '(');
            push_char(out, ')');
            assert(o + seq!['u', 'r', 'l', '(', ')'] =~= out@);
        },
        Token::Delim(c) => push_char(out, *c),
        Token::Number { repr, .. } => push_string(out, repr),
        Token::Percentage { repr } => {
            push_string(out, repr);
            push_char(out, '%');
        },
        Token::Dimension { repr, unit, .. } => {
            push_string(out, repr);
            serialize_dimension_unit(unit.as_str(), out);
            assert(o + (repr@ + unit_out(unit@)) =~= out@);
        },
        Token::Whitespace => push_char(out, ' '),
        Token::Cdo => {
            push2(out, '<', '!');
            push2(out, '-', '-');
            assert(o + seq!['<', '!', '-', '-'] =~= out@);
        },
        Token::Cdc => {
            push2(out, '-', '-');
            push_char(out, '>');
            assert(o + seq!['-', '-', '>'] =~= out@);
        },
        Token::Colon => push_char(out, ':'),
        Token::Semicolon => push_char(out, ';'),
        Token::Comma => push_char(out, ','),
        Token::LeftSquare => push_char(out, '['),
        Token::RightSquare => push_char(out, ']'),
        Token::LeftParen => push_char(out, '('),
        Token::RightParen => push_char(out, ')'),
        Token::LeftCurly => push_char(out, '{'),
        Token::RightCurly => push_char(out, '}'),
    }
}

fn runs_into_name_cv(b: &ComponentValue) -> (r: bool)
    ensures
        r == runs_into_name(first_tok(*b)),
{
    match b {
        ComponentValue::Token(t) => match t {
            Token::Ident(_) | Token::Function(_) | Token::Url(_) | Token::BadUrl => true,
            Token::Number { .. } | Token::Percentage { .. } | Token::Dimension { .. } => true,
            Token::Cdc => true,
            Token::Delim(c) => *c == '-',
            _ => false,
        },
        ComponentValue::Function { .. } => true,
        ComponentValue::Block(_) => false,
    }
}

fn is_numeric_cv(b: &ComponentValue) -> (r: bool)
    ensures
        r == is_numeric_tok(first_tok(*b)),
{
    match b {
        ComponentValue::Token(t) => match t {
            Token::Number { .. } | Token::Percentage { .. } | Token::Dimension { .. } => true,
            _ => false,
        },
        _ => false,
    }
}

fn starts_with_delim(b: &ComponentValue, c: char) -> (r: bool)
    ensures
        r == (first_tok(*b) == SpecToken::Delim(c)),
{
    match b {
        ComponentValue::Token(Token::Delim(d)) => *d == c,
        _ => false,
    }
}

fn starts_with_left_paren(b: &ComponentValue) -> (r: bool)
    ensures
        r == (first_tok(*b) == SpecToken::LeftParen),
{
    match b {
        ComponentValue::Token(Token::LeftParen) => true,
        ComponentValue::Block(blk) => matches!(blk.kind, BlockKind::Paren),
        _ => false,
    }
}

fn starts_with_whitespace(b: &ComponentValue) -> (r: bool)
    ensures
        r == (first_tok(*b) == SpecToken::Whitespace),
{
    matches!(b, ComponentValue::Token(Token::Whitespace))
}

fn is_double_hyphen(s: &String) -> (r: bool)
    ensures
        r == (s@ == seq!['-', '-']),
{
    let v = str_to_chars(s.as_str());
    let r = v.len() == 2 && v[0] == '-' && v[1] == '-';
    if r {
        assert(v@ =~= seq!['-', '-']);
    }
    r
}

/// Whether `a` written directly before `b` would run into it.
fn needs_separator(a: &ComponentValue, b: &ComponentValue) -> (r: bool)
    ensures
        r == needs_sep(last_tok(*a), first_tok(*b)),
{
    match a {
        ComponentValue::Token(t) => match t {
            Token::Whitespace => starts_with_whitespace(b),
            Token::Ident(s) => runs_into_name_cv(b) || starts_with_left_paren(b) || (is_double_hyphen(s)
                && starts_with_delim(b, '>')),
            Token::AtKeyword(_) | Token::Hash { .. } | Token::Dimension { .. } => runs_into_name_cv(b),
            Token::Number { .. } => (runs_into_name_cv(b) && !starts_with_delim(b, '-')) || starts_with_delim(
                b,
                '%',
            ),
            Token::Delim(c) => {
                if *c == '#' || *c == '-' {
                    runs_into_name_cv(b)
                } else if *c == '@' {
                    runs_into_name_cv(b) && !is_numeric_cv(b)
                } else if *c == '.' || *c == '+' {
                    is_numeric_cv(b)
                } else if *c == '/' {
                    starts_with_delim(b, '*')
                } else if *c == '<' {
                    starts_with_delim(b, '!')
                } else {
                    false
                }
            },
            _ => false,
        },
        _ => false,
    }
}

fn push_separator(out: &mut String)
    ensures
        final(out)@ == old(out)@ + separator_out(),
{
    push2(out, '/', '*');
    push2(out, '*', '/');
    assert(old(out)@ + separator_out() =~= out@);
}

fn serialize_values(vs: &Vec<ComponentValue>, out: &mut String)
    ensures
        final(out)@ == old(out)@ + vals_out(vs@),
    decreases vs,
{
    let mut i: usize = 0;
    while i < vs.len()
        invariant
            0 <= i <= vs.len(),
            out@ == old(out)@ + vals_out(vs@.take(i as int)),
        decreases vs.len() - i,
    {
        let ghost before = out@;
        let ghost sep = if i >= 1 {
            sep_out(last_tok(vs@[i - 1]), vs@[i as int])
        } else {
            seq![]
        };
        if i > 0 && needs_separator(&vs[i - 1], &vs[i]) {
            push_separator(out);
        }
        assert(out@ =~= before + sep);
        serialize_component_value(&vs[i], out);
        assert(vs@.take(i + 1).drop_last() =~= vs@.take(i as int));
        assert(vs@.take(i + 1).last() == vs@[i as int]);
        if i >= 1 {
            assert(vs@.take(i + 1)[i - 1] == vs@[i - 1]);
        }
        assert(out@ =~= old(out)@ + vals_out(vs@.take(i + 1)));
        i = i + 1;
    }
    assert(vs@.take(vs.len() as int) =~= vs@);
}

/// Write a component value back as CSS text.
pub fn serialize_component_value(v: &ComponentValue, out: &mut String)
    ensures
        final(out)@ == old(out)@ + cv_out(*v),
    decreases v,
{
    let ghost o = out@;
    match v {
        ComponentValue::Token(t) => serialize_token(t, out),
        ComponentValue::Function { name, args } => {
            serialize_ident(name.as_str(), out);
            push_char(out, '(');
            serialize_values(args, out);
            push_char(out, ')');
            assert(o + cv_out(*v) =~= out@);
        },
        ComponentValue::Block(b) => {
            serialize_simple_block(b, out);
        },
    }
}

/// Write a block back as CSS text, brackets included.
pub fn serialize_simple_block(b: &SimpleBlock, out: &mut String)
    ensures
        final(out)@ == old(out)@ + block_out(*b),
    decreases b,
{
    let ghost o = out@;
    let (open, close) = match b.kind {
        BlockKind::Curly => ('{', '}'),
        BlockKind::Square => ('[', ']'),
        BlockKind::Paren => ('(', ')'),
    };
    push_char(out, open);
    serialize_values(&b.values, out);
    push_char(out, close);
    assert(o + block_out(*b) =~= out@);
}

/// Write a declaration: `name:value`, then `!important` if it is.
pub fn serialize_declaration(d: &Declaration, out: &mut String)
    ensures
        final(out)@ == old(out)@ + declaration_out(*d),
{
    let ghost o = out@;
    serialize_ident(d.name.as_str(), out);
    push_char(out, ':');
    serialize_values(&d.value, out);
    let ghost mid = out@;
    if d.important {
        push2(out, '!', 'i');
        push2(out, 'm', 'p');
        push2(out, 'o', 'r');
        push2(out, 't', 'a');
        push2(out, 'n', 't');
        assert(mid + important_out() =~= out@);
    }
    assert(o + declaration_out(*d) =~= out@);
}

fn serialize_at_rule(a: &AtRule, out: &mut String)
    ensures
        final(out)@ == old(out)@ + at_rule_out(*a),
{
    let ghost o = out@;
    push_char(out, '@');
    serialize_ident(a.name.as_str(), out);
    let ghost mid = out@;
    if a.prelude.len() > 0 && runs_into_name_cv(&a.prelude[0]) {
        push_separator(out);
    }
    assert(out@ =~= mid + (if a.prelude@.len() > 0 {
        sep_out(SpecToken::AtKeyword(a.name@), a.prelude@[0])
    } else {
        seq![]
    }));
    serialize_values(&a.prelude, out);
    match &a.block {
        Some(b) => serialize_simple_block(b, out),
        None => push_char(out, ';'),
    }
    assert(o + at_rule_out(*a) =~= out@);
}

/// Write a rule back as CSS text.
pub fn serialize_rule(r: &Rule, out: &mut String)
    ensures
        final(out)@ == old(out)@ + rule_out(*r),
{
    let ghost o = out@;
    match r {
        Rule::Qualified(q) => {
            serialize_values(&q.prelude, out);
            serialize_simple_block(&q.block, out);
            assert(o + rule_out(*r) =~= out@);
        },
        Rule::At(a) => serialize_at_rule(a, out),
    }
}

/// A stylesheet as CSS text: its rules one after another.
pub fn serialize_stylesheet(sheet: &Stylesheet) -> (r: String)
    ensures
        r@ == rules_out(sheet.rules@),
{
    let mut out = String::new();
    let mut i: usize = 0;
    while i < sheet.rules.len()
        invariant
            0 <= i <= sheet.rules.len(),
            out@ == rules_out(sheet.rules@.take(i as int)),
        decreases sheet.rules.len() - i,
    {
        serialize_rule(&sheet.rules[i], &mut out);
        assert(sheet.rules@.take(i + 1).drop_last() =~= sheet.rules@.take(i as int));
        i = i + 1;
    }
    assert(sheet.rules@.take(sheet.rules.len() as int) =~= sheet.rules@);
    out
}

/// A declaration list as CSS text: its items separated by `;`.
pub fn serialize_declaration_list(items: &[DeclarationListItem]) -> (r: String)
    ensures
        r@ == items_out(items@),
{
    let mut out = String::new();
    let mut i: usize = 0;
    while i < items.len()
        invariant
            0 <= i <= items.len(),
            out@ == items_out(items@.take(i as int)),
        decreases items.len() - i,
    {
        let ghost before = out@;
        if i > 0 {
            push_char(&mut out, ';');
        }
        match &items[i] {
            DeclarationListItem::Declaration(d) => serialize_declaration(d, &mut out),
            DeclarationListItem::AtRule(a) => serialize_at_rule(a, &mut out),
        }
        assert(items@.take(i + 1).drop_last() =~= items@.take(i as int));
        if i == 0 {
            assert(items@.take(1)[0] == items@[0]);
        }
        assert(out@ =~= items_out(items@.take(i + 1)));
        i = i + 1;
    }
    assert(items@.take(items.len() as int) =~= items@);
    out
}

} // verus!
