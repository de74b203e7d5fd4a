//! Laws of the grammar: how the parse of a format string is made of the
//! parses of its parts.

use crate::digits::{decimal, lemma_decimal_value};
use crate::parser::{
    format_char_of, is_space, code_at, codes_from, decimal_value, digit_run, ident_run, in_class, is_digit, is_ident_char,
    lemma_code_advances, modifier_of, repeat_of, run_len, space_run, spec_parse, CharClass,
    FormatCharView, FormatCodeView, FormatView, Modifier, ParseError,
};
use vstd::prelude::*;

verus! {

/// A run does not go beyond the end of the string.
pub proof fn lemma_run_bound(s: Seq<char>, i: int, class: CharClass)
    requires
        0 <= i <= s.len(),
    ensures
        i + run_len(s, i, class) <= s.len(),
    decreases s.len() - i,
{
    if i < s.len() && in_class(s[i], class) {
        lemma_run_bound(s, i + 1, class);
    }
}

/// A run that ends before the end of `s` is the same when `t` follows `s`.
pub proof fn lemma_run_stops(s: Seq<char>, t: Seq<char>, i: int, class: CharClass)
    requires
        0 <= i,
        i + run_len(s, i, class) < s.len(),
    ensures
        run_len(s + t, i, class) == run_len(s, i, class),
    decreases s.len() - i,
{
    assert((s + t)[i] == s[i]);
    if in_class(s[i], class) {
        lemma_run_stops(s, t, i + 1, class);
    }
}

/// A run in `t` is the same when `p` stands in front of `t`.
pub proof fn lemma_run_shift(p: Seq<char>, t: Seq<char>, j: int, class: CharClass)
    requires
        0 <= j,
    ensures
        run_len(p + t, p.len() + j, class) == run_len(t, j, class),
    decreases t.len() - j,
{
    if j < t.len() {
        assert((p + t)[p.len() + j] == t[j]);
        if in_class(t[j], class) {
            lemma_run_shift(p, t, j + 1, class);
        }
    }
}

/// A run that reaches the end of `s` goes on in what follows `s`.
pub proof fn lemma_run_through(s: Seq<char>, t: Seq<char>, i: int, class: CharClass)
    requires
        0 <= i <= s.len(),
        i + run_len(s, i, class) == s.len(),
    ensures
        run_len(s + t, i, class) == (s.len() - i) + run_len(t, 0, class),
    decreases s.len() - i,
{
    if i < s.len() {
        assert((s + t)[i] == s[i]);
        lemma_run_through(s, t, i + 1, class);
    } else {
        lemma_run_shift(s, t, 0, class);
    }
}

/// A stretch of characters of a class, with another character behind it, is
/// a run.
pub proof fn lemma_run_exact(s: Seq<char>, i: int, n: nat, class: CharClass)
    requires
        0 <= i,
        i + n < s.len(),
        forall|k: int| i <= k < i + n ==> in_class(#[trigger] s[k], class),
        !in_class(s[i + n], class),
    ensures
        run_len(s, i, class) == n,
    decreases n,
{
    if n > 0 {
        lemma_run_exact(s, i + 1, (n - 1) as nat, class);
    }
}

/// The value of some digits of `t` is the same when `p` stands in front of
/// `t`.
pub proof fn lemma_decimal_shift(p: Seq<char>, t: Seq<char>, from: int, len: nat)
    requires
        0 <= from,
        from + len <= t.len(),
    ensures
        decimal_value(p + t, p.len() + from, len) == decimal_value(t, from, len),
    decreases len,
{
    if len > 0 {
        lemma_decimal_shift(p, t, from, (len - 1) as nat);
        assert((p + t)[p.len() + from + len - 1] == t[from + len - 1]);
    }
}

/// The value of some digits of `s` is the same when `t` follows `s`.
pub proof fn lemma_decimal_prefix(s: Seq<char>, t: Seq<char>, from: int, len: nat)
    requires
        0 <= from,
        from + len <= s.len(),
    ensures
        decimal_value(s + t, from, len) == decimal_value(s, from, len),
    decreases len,
{
    if len > 0 {
        lemma_decimal_prefix(s, t, from, (len - 1) as nat);
        assert((s + t)[from + len - 1] == s[from + len - 1]);
    }
}

/// The code at an index of `t` is the code at that index moved by the
/// length of `p`, when `p` stands in front of `t`.
pub proof fn lemma_code_at_shift(p: Seq<char>, t: Seq<char>, j: int)
    requires
        0 <= j <= t.len(),
    ensures
        code_at(t, j) matches Ok((code, next)) ==> code_at(p + t, p.len() + j) == Ok::<
            (FormatCodeView, int),
            ParseError,
        >((code, next + p.len())),
        code_at(t, j) is Err ==> code_at(p + t, p.len() + j) is Err,
{
    let s = p + t;
    let m = p.len() as int;
    let digits = digit_run(t, j);
    lemma_run_shift(p, t, j, CharClass::Digit);
    lemma_run_bound(t, j, CharClass::Digit);
    lemma_decimal_shift(p, t, j, digits);
    let at = j + digits;
    if at < t.len() {
        assert(s[m + at] == t[at]);
        if t[at] == '`' {
            let len = ident_run(t, at + 1);
            lemma_run_shift(p, t, at + 1, CharClass::Ident);
            lemma_run_bound(t, at + 1, CharClass::Ident);
            let close = at + 1 + len;
            if close < t.len() {
                assert(s[m + close] == t[close]);
                assert(s[m + at + 1] == t[at + 1]);
                assert(s.subrange(m + at + 1, m + close) =~= t.subrange(at + 1, close));
            }
        }
    }
}

/// The codes from an index of `t` on are the same when `p` stands in front
/// of `t`.
pub proof fn lemma_codes_shift(p: Seq<char>, t: Seq<char>, j: int)
    requires
        0 <= j <= t.len(),
    ensures
        codes_from(t, j) matches Ok(codes) ==> codes_from(p + t, p.len() + j) == Ok::<
            Seq<FormatCodeView>,
            ParseError,
        >(codes),
        codes_from(t, j) is Err ==> codes_from(p + t, p.len() + j) is Err,
    decreases t.len() - j,
{
    lemma_run_shift(p, t, j, CharClass::Space);
    lemma_run_bound(t, j, CharClass::Space);
    let start = j + space_run(t, j);
    if start < t.len() {
        lemma_code_at_shift(p, t, start);
        lemma_code_advances(t, start);
        if let Ok((code, next)) = code_at(t, start) {
            lemma_codes_shift(p, t, next);
        }
    }
}

/// A code of `s` is the same code when `t` follows `s`.
pub proof fn lemma_code_at_prefix(s: Seq<char>, t: Seq<char>, i: int)
    requires
        0 <= i,
        code_at(s, i) is Ok,
    ensures
        code_at(s + t, i) == code_at(s, i),
{
    let both = s + t;
    let digits = digit_run(s, i);
    let at = i + digits;
    lemma_run_stops(s, t, i, CharClass::Digit);
    lemma_decimal_prefix(s, t, i, digits);
    assert(both[at] == s[at]);
    if s[at] == '`' {
        let len = ident_run(s, at + 1);
        let close = at + 1 + len;
        lemma_run_stops(s, t, at + 1, CharClass::Ident);
        assert(both[close] == s[close]);
        assert(both[at + 1] == s[at + 1]);
        assert(both.subrange(at + 1, close) =~= s.subrange(at + 1, close));
    }
}

/// The codes of `s` from an index on, and then those of `t`, are the codes
/// of `s + t` from that index on.
pub proof fn lemma_codes_concat(s: Seq<char>, t: Seq<char>, i: int)
    requires
        0 <= i <= s.len(),
        codes_from(s, i) is Ok,
        codes_from(t, 0) is Ok,
    ensures
        codes_from(s + t, i) == Ok::<Seq<FormatCodeView>, ParseError>(
            codes_from(s, i)->Ok_0 + codes_from(t, 0)->Ok_0,
        ),
    decreases s.len() - i,
{
    let both = s + t;
    let start = i + space_run(s, i);
    lemma_run_bound(s, i, CharClass::Space);
    if start >= s.len() {
        lemma_run_through(s, t, i, CharClass::Space);
        lemma_run_shift(s, t, 0, CharClass::Space);
        lemma_codes_shift(s, t, 0);
        assert(codes_from(both, i) == codes_from(both, s.len() as int));
        assert(Seq::<FormatCodeView>::empty() + codes_from(t, 0)->Ok_0 =~= codes_from(t, 0)->Ok_0);
    } else {
        lemma_run_stops(s, t, i, CharClass::Space);
        lemma_code_at_prefix(s, t, start);
        lemma_code_advances(s, start);
        let (code, next) = code_at(s, start)->Ok_0;
        lemma_codes_concat(s, t, next);
        assert((seq![code] + codes_from(s, next)->Ok_0) + codes_from(t, 0)->Ok_0 =~= seq![code] + (
        codes_from(s, next)->Ok_0 + codes_from(t, 0)->Ok_0));
    }
}

/// Whether `p` is what may stand in front of the codes of a format string:
/// nothing, or one mode character.
pub open spec fn is_mode_prefix(p: Seq<char>) -> bool {
    p.len() == 0 || (p.len() == 1 && modifier_of(p[0]) is Some)
}

/// Whether a string does not start with a mode character.
pub open spec fn starts_without_mode(a: Seq<char>) -> bool {
    a.len() == 0 || modifier_of(a[0]) is None
}

/// The mode that a prefix selects.
pub open spec fn mode_of_prefix(p: Seq<char>) -> Option<Modifier> {
    if p.len() == 0 {
        None
    } else {
        modifier_of(p[0])
    }
}

/// A format string is parsed from behind its mode character on.
pub proof fn lemma_parse_behind_prefix(p: Seq<char>, a: Seq<char>)
    requires
        is_mode_prefix(p),
        p.len() == 0 ==> starts_without_mode(a),
    ensures
        spec_parse(p + a) == match codes_from(p + a, p.len() as int) {
            Ok(codes) => Ok::<FormatView, ParseError>(
                FormatView { modifier: mode_of_prefix(p), codes },
            ),
            Err(e) => Err(e),
        },
{
    let s = p + a;
    if p.len() == 0 {
        if a.len() > 0 {
            assert(s[0] == a[0]);
        }
    } else {
        assert(s[0] == p[0]);
    }
}

/// The codes of two format strings of one mode, one behind the other, are
/// the codes of the string that holds the text of the first and then the
/// text of the second behind the mode character.
pub proof fn lemma_parse_concat(p: Seq<char>, a: Seq<char>, b: Seq<char>)
    requires
        is_mode_prefix(p),
        p.len() == 0 ==> starts_without_mode(a) && starts_without_mode(b),
        spec_parse(p + a) is Ok,
        spec_parse(p + b) is Ok,
    ensures
        spec_parse(p + a + b) == Ok::<FormatView, ParseError>(
            FormatView {
                modifier: mode_of_prefix(p),
                codes: spec_parse(p + a)->Ok_0.codes + spec_parse(p + b)->Ok_0.codes,
            },
        ),
        spec_parse(p + a)->Ok_0.modifier == mode_of_prefix(p),
        spec_parse(p + b)->Ok_0.modifier == mode_of_prefix(p),
{
    let m = p.len() as int;
    lemma_parse_behind_prefix(p, a);
    lemma_parse_behind_prefix(p, b);
    assert(p + a + b =~= p + (a + b));
    if p.len() == 0 && a.len() == 0 {
        assert(a + b =~= b);
    }
    if p.len() == 0 && a.len() > 0 {
        assert((a + b)[0] == a[0]);
    }
    lemma_parse_behind_prefix(p, a + b);
    lemma_codes_shift(p, b, 0);
    lemma_codes_concat(p + a, b, m);
}

/// Whether `name` can stand between back quotes: it is not empty, made of
/// letters, digits and underscores, and does not start with a digit.
pub open spec fn is_name(name: Seq<char>) -> bool {
    &&& name.len() > 0
    &&& forall|i: int| 0 <= i < name.len() ==> is_ident_char(#[trigger] name[i])
    &&& !is_digit(name[0])
}

/// The text of a code that asks for two records of the type `name`.
pub open spec fn twice(name: Seq<char>) -> Seq<char> {
    seq!['2', '`'] + name + seq!['`']
}

/// The format string of two records of a type has one code: the type's
/// name, with the count two.
pub proof fn lemma_parse_twice(p: Seq<char>, name: Seq<char>)
    requires
        is_mode_prefix(p),
        is_name(name),
    ensures
        spec_parse(p + twice(name)) == Ok::<FormatView, ParseError>(
            FormatView {
                modifier: mode_of_prefix(p),
                codes: seq![
                    FormatCodeView { repeat: Some(2usize), chr: FormatCharView::Ident(name) },
                ],
            },
        ),
{
    let s = p + twice(name);
    let m = p.len() as int;
    let close = m + 2 + name.len();
    lemma_parse_behind_prefix(p, twice(name));
    assert(s.len() == close + 1);
    assert(s[m] == '2');
    assert(s[m + 1] == '`');
    assert(s[close] == '`');
    assert forall|k: int| m + 2 <= k < close implies in_class(
        #[trigger] s[k],
        CharClass::Ident,
    ) by {
        assert(s[k] == name[k - m - 2]);
    }
    lemma_run_exact(s, m + 2, name.len(), CharClass::Ident);
    lemma_run_exact(s, m, 1, CharClass::Digit);
    lemma_run_exact(s, m, 0, CharClass::Space);
    assert(decimal_value(s, m, 0) == 0);
    assert(decimal_value(s, m, 1) == 2);
    assert(s[m + 2] == name[0]);
    assert(s.subrange(m + 2, close) =~= name);
    let code = FormatCodeView { repeat: Some(2usize), chr: FormatCharView::Ident(name) };
    assert(code_at(s, m) == Ok::<(FormatCodeView, int), ParseError>((code, close + 1)));
    assert(codes_from(s, close + 1) == Ok::<Seq<FormatCodeView>, ParseError>(Seq::empty()));
    assert(seq![code] + Seq::<FormatCodeView>::empty() =~= seq![code]);
}


/// The mode character that selects a mode, or nothing for none.
pub open spec fn render_mode(modifier: Option<Modifier>) -> Seq<char> {
    match modifier {
        None => Seq::empty(),
        Some(Modifier::Native) => seq!['@'],
        Some(Modifier::NativeStandard) => seq!['='],
        Some(Modifier::LittleEndian) => seq!['<'],
        Some(Modifier::BigEndian) => seq!['>'],
    }
}

/// The text behind the count of a code: the format character, or the name
/// between back quotes.
pub open spec fn render_char(chr: FormatCharView) -> Seq<char> {
    match chr {
        FormatCharView::Array => seq!['s'],
        FormatCharView::Bool => seq!['?'],
        FormatCharView::Char => seq!['b'],
        FormatCharView::Double => seq!['d'],
        FormatCharView::Float => seq!['f'],
        FormatCharView::Ident(name) => seq!['`'] + name + seq!['`'],
        FormatCharView::Int => seq!['i'],
        FormatCharView::Long => seq!['l'],
        FormatCharView::LongLong => seq!['q'],
        FormatCharView::Pad => seq!['x'],
        FormatCharView::Short => seq!['h'],
        FormatCharView::Size => seq!['n'],
        FormatCharView::UChar => seq!['B'],
        FormatCharView::UInt => seq!['I'],
        FormatCharView::ULong => seq!['L'],
        FormatCharView::ULongLong => seq!['Q'],
        FormatCharView::UShort => seq!['H'],
        FormatCharView::USize => seq!['N'],
    }
}

/// The text of a code: its count in decimal digits, if it has one, and its
/// format character or name.
pub open spec fn render_code(code: FormatCodeView) -> Seq<char> {
    match code.repeat {
        Some(n) => decimal(n as nat) + render_char(code.chr),
        None => render_char(code.chr),
    }
}

/// The text of the codes from index `i` on, one behind the other.
pub open spec fn render_codes(codes: Seq<FormatCodeView>, i: int) -> Seq<char>
    decreases codes.len() - i,
{
    if 0 <= i < codes.len() {
        render_code(codes[i]) + render_codes(codes, i + 1)
    } else {
        Seq::empty()
    }
}

/// A format string for a format: its mode character and its codes.
pub open spec fn render(format: FormatView) -> Seq<char> {
    render_mode(format.modifier) + render_codes(format.codes, 0)
}

/// Whether a format can be written down: every name in it can stand
/// between back quotes.
pub open spec fn can_render(format: FormatView) -> bool {
    forall|i: int|
        0 <= i < format.codes.len() ==> ((#[trigger] format.codes[i]).chr matches FormatCharView::Ident(
            name,
        ) ==> is_name(name))
}

/// The text of a code starts with a character that is neither white space
/// nor a mode character.
pub proof fn lemma_render_code_start(code: FormatCodeView)
    requires
        code.chr matches FormatCharView::Ident(name) ==> is_name(name),
    ensures
        render_code(code).len() > 0,
        !is_space(render_code(code)[0]),
        modifier_of(render_code(code)[0]) is None,
{
    if let Some(n) = code.repeat {
        lemma_decimal_value(n as nat);
        assert(render_code(code)[0] == decimal(n as nat)[0]);
    }
}

/// The text of a code, whatever follows it, is read as that code.
pub proof fn lemma_render_code_parses(code: FormatCodeView, rest: Seq<char>)
    requires
        code.chr matches FormatCharView::Ident(name) ==> is_name(name),
    ensures
        code_at(render_code(code) + rest, 0) == Ok::<(FormatCodeView, int), ParseError>(
            (code, render_code(code).len() as int),
        ),
{
    let text = render_code(code);
    let s = text + rest;
    let tail = render_char(code.chr);
    let digits: nat = match code.repeat {
        Some(n) => decimal(n as nat).len(),
        None => 0,
    };
    assert(text.len() == digits + tail.len());
    assert(tail.len() > 0);
    assert(s[digits as int] == tail[0]);
    assert(!is_digit(tail[0]));
    match code.repeat {
        Some(n) => {
            let count = decimal(n as nat);
            lemma_decimal_value(n as nat);
            assert forall|k: int| 0 <= k < digits implies in_class(
                #[trigger] s[k],
                CharClass::Digit,
            ) by {
                assert(s[k] == count[k]);
            }
            lemma_run_exact(s, 0, digits, CharClass::Digit);
            assert(s =~= count + (tail + rest));
            lemma_decimal_prefix(count, tail + rest, 0, digits);
        },
        None => {
            lemma_run_exact(s, 0, 0, CharClass::Digit);
        },
    }
    assert(digit_run(s, 0) == digits);
    assert(repeat_of(s, 0, digits) == code.repeat);
    if let FormatCharView::Ident(name) = code.chr {
        let open = digits as int;
        let close = open + 1 + name.len();
        assert(s[close] == '`');
        assert forall|k: int| open + 1 <= k < close implies in_class(
            #[trigger] s[k],
            CharClass::Ident,
        ) by {
            assert(s[k] == name[k - open - 1]);
        }
        lemma_run_exact(s, open + 1, name.len(), CharClass::Ident);
        assert(s[open + 1] == name[0]);
        assert(s.subrange(open + 1, close) =~= name);
    } else {
        assert(format_char_of(tail[0]) == Some(code.chr));
    }
}

/// The text of some codes is read as those codes.
pub proof fn lemma_render_codes_parse(codes: Seq<FormatCodeView>, i: int)
    requires
        0 <= i <= codes.len(),
        forall|k: int|
            0 <= k < codes.len() ==> ((#[trigger] codes[k]).chr matches FormatCharView::Ident(name)
                ==> is_name(name)),
    ensures
        codes_from(render_codes(codes, i), 0) == Ok::<Seq<FormatCodeView>, ParseError>(
            codes.subrange(i, codes.len() as int),
        ),
    decreases codes.len() - i,
{
    let s = render_codes(codes, i);
    if i < codes.len() {
        let text = render_code(codes[i]);
        let rest = render_codes(codes, i + 1);
        lemma_render_code_start(codes[i]);
        lemma_render_code_parses(codes[i], rest);
        lemma_render_codes_parse(codes, i + 1);
        lemma_codes_shift(text, rest, 0);
        assert(s[0] == text[0]);
        lemma_run_exact(s, 0, 0, CharClass::Space);
        assert(seq![codes[i]] + codes.subrange(i + 1, codes.len() as int) =~= codes.subrange(
            i,
            codes.len() as int,
        ));
    } else {
        assert(codes.subrange(i, codes.len() as int) =~= Seq::<FormatCodeView>::empty());
    }
}

/// Every format that can be written down has a format string: parsing the
/// text of a format gives the format back.
pub proof fn lemma_parse_render(format: FormatView)
    requires
        can_render(format),
    ensures
        spec_parse(render(format)) == Ok::<FormatView, ParseError>(format),
{
    let p = render_mode(format.modifier);
    let body = render_codes(format.codes, 0);
    if format.codes.len() > 0 {
        lemma_render_code_start(format.codes[0]);
        assert(body[0] == render_code(format.codes[0])[0]);
    }
    lemma_parse_behind_prefix(p, body);
    lemma_render_codes_parse(format.codes, 0);
    lemma_codes_shift(p, body, 0);
    assert(format.codes.subrange(0, format.codes.len() as int) =~= format.codes);
}

} // verus!
