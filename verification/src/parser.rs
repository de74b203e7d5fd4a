//! The format-string grammar: a leading mode character, then codes made of an
//! optional repeat count and a format character or a back-quoted type name.

use vstd::prelude::*;
use vstd::string::*;

verus! {

/// The order in which the bytes of a number are laid out.
#[derive(Debug, Clone, Copy, PartialEq, Eq, Structural)]
pub enum ByteOrder {
    Native,
    LittleEndian,
    BigEndian,
}

/// The mode character at the start of a format string.
#[derive(Debug, Clone, Copy, PartialEq, Eq, Structural)]
pub enum Modifier {
    /// `@`: platform byte order, C type widths, natural alignment.
    Native,
    /// `=`: platform byte order, fixed widths, no alignment.
    NativeStandard,
    /// `<`: little-endian, fixed widths, no alignment.
    LittleEndian,
    /// `>` or `!`: big-endian, fixed widths, no alignment.
    BigEndian,
}

impl Modifier {
    /// The byte order that this mode selects.
    pub open spec fn spec_byte_order(&self) -> ByteOrder {
        match self {
            Modifier::Native => ByteOrder::Native,
            Modifier::NativeStandard => ByteOrder::Native,
            Modifier::LittleEndian => ByteOrder::LittleEndian,
            Modifier::BigEndian => ByteOrder::BigEndian,
        }
    }

    /// The byte order that this mode selects.
    #[verifier::when_used_as_spec(spec_byte_order)]
    pub fn byte_order(&self) -> (order: ByteOrder)
        ensures
            order == self.spec_byte_order(),
    {
        match self {
            Modifier::Native => ByteOrder::Native,
            Modifier::NativeStandard => ByteOrder::Native,
            Modifier::LittleEndian => ByteOrder::LittleEndian,
            Modifier::BigEndian => ByteOrder::BigEndian,
        }
    }

    /// Whether this mode uses the platform's C type widths and alignment.
    pub open spec fn spec_native_types(&self) -> bool {
        *self == Modifier::Native
    }

    /// Whether this mode uses the platform's C type widths and alignment.
    #[verifier::when_used_as_spec(spec_native_types)]
    pub fn native_types(&self) -> (native: bool)
        ensures
            native == self.spec_native_types(),
    {
        *self == Modifier::Native
    }
}

impl Default for Modifier {
    fn default() -> (m: Modifier)
        ensures
            m == Modifier::Native,
    {
        Modifier::Native
    }
}

/// The kind of one format code.
#[derive(Debug, Clone, PartialEq, Eq)]
pub enum FormatChar {
    Array,
    Bool,
    Char,
    Double,
    Float,
    Ident(String),
    Int,
    Long,
    LongLong,
    Pad,
    Short,
    Size,
    UChar,
    UInt,
    ULong,
    ULongLong,
    UShort,
    USize,
}

/// What a [`FormatChar`] stands for in contracts.
pub ghost enum FormatCharView {
    Array,
    Bool,
    Char,
    Double,
    Float,
    Ident(Seq<char>),
    Int,
    Long,
    LongLong,
    Pad,
    Short,
    Size,
    UChar,
    UInt,
    ULong,
    ULongLong,
    UShort,
    USize,
}

impl View for FormatChar {
    type V = FormatCharView;

    open spec fn view(&self) -> FormatCharView {
        match self {
            FormatChar::Array => FormatCharView::Array,
            FormatChar::Bool => FormatCharView::Bool,
            FormatChar::Char => FormatCharView::Char,
            FormatChar::Double => FormatCharView::Double,
            FormatChar::Float => FormatCharView::Float,
            FormatChar::Ident(name) => FormatCharView::Ident(name@),
            FormatChar::Int => FormatCharView::Int,
            FormatChar::Long => FormatCharView::Long,
            FormatChar::LongLong => FormatCharView::LongLong,
            FormatChar::Pad => FormatCharView::Pad,
            FormatChar::Short => FormatCharView::Short,
            FormatChar::Size => FormatCharView::Size,
            FormatChar::UChar => FormatCharView::UChar,
            FormatChar::UInt => FormatCharView::UInt,
            FormatChar::ULong => FormatCharView::ULong,
            FormatChar::ULongLong => FormatCharView::ULongLong,
            FormatChar::UShort => FormatCharView::UShort,
            FormatChar::USize => FormatCharView::USize,
        }
    }
}

/// One code of a format string: a format character and the count before it.
#[derive(Debug, Clone, PartialEq, Eq)]
pub struct FormatCode {
    pub repeat: Option<usize>,
    pub chr: FormatChar,
}

/// What a [`FormatCode`] stands for in contracts.
pub ghost struct FormatCodeView {
    pub repeat: Option<usize>,
    pub chr: FormatCharView,
}

impl View for FormatCode {
    type V = FormatCodeView;

    open spec fn view(&self) -> FormatCodeView {
        FormatCodeView { repeat: self.repeat, chr: self.chr@ }
    }
}

/// A parsed format string.
#[derive(Debug, Clone, PartialEq, Eq)]
pub struct Format {
    pub modifier: Option<Modifier>,
    pub codes: Vec<FormatCode>,
}

/// What a [`Format`] stands for in contracts.
pub ghost struct FormatView {
    pub modifier: Option<Modifier>,
    pub codes: Seq<FormatCodeView>,
}

/// The views of a sequence of codes, in order.
pub open spec fn codes_view(codes: Seq<FormatCode>) -> Seq<FormatCodeView> {
    Seq::new(codes.len(), |i: int| codes[i]@)
}

impl View for Format {
    type V = FormatView;

    open spec fn view(&self) -> FormatView {
        FormatView { modifier: self.modifier, codes: codes_view(self.codes@) }
    }
}

/// Why a format string was refused. Positions count characters from zero.
#[derive(Debug, Clone, Copy, PartialEq, Eq, Structural)]
pub enum ParseError {
    /// A character that is no format character stands where one is expected.
    UnknownCharacter { position: usize },
    /// A mode character stands anywhere but first.
    MisplacedModifier { position: usize },
    /// White space stands between a repeat count and its format character.
    DetachedRepeat { position: usize },
    /// The string ends after a repeat count.
    MissingCharacter { position: usize },
    /// A back quote at `position` opens a name that is never closed.
    UnterminatedIdent { position: usize },
    /// The back quotes at `position` enclose nothing.
    EmptyIdent { position: usize },
}

/// Whether `c` is white space: a blank, a tab, a line feed or a carriage
/// return.
pub open spec fn is_space(c: char) -> bool {
    c == ' ' || c == '\t' || c == '\n' || c == '\r'
}

/// Whether `c` is an ASCII decimal digit.
pub open spec fn is_digit(c: char) -> bool {
    '0' <= c <= '9'
}

/// Whether `c` may stand in a name: an ASCII letter, a digit or an
/// underscore.
pub open spec fn is_ident_char(c: char) -> bool {
    ('a' <= c <= 'z') || ('A' <= c <= 'Z') || ('0' <= c <= '9') || c == '_'
}

/// The number that a decimal digit stands for.
pub open spec fn digit_value(c: char) -> nat {
    (c as nat - '0' as nat) as nat
}

/// The mode that a character selects, if it is a mode character.
pub open spec fn modifier_of(c: char) -> Option<Modifier> {
    if c == '@' {
        Some(Modifier::Native)
    } else if c == '=' {
        Some(Modifier::NativeStandard)
    } else if c == '<' {
        Some(Modifier::LittleEndian)
    } else if c == '>' || c == '!' {
        Some(Modifier::BigEndian)
    } else {
        None
    }
}

/// The kind that a single format character denotes.
pub open spec fn format_char_of(c: char) -> Option<FormatCharView> {
    if c == '?' {
        Some(FormatCharView::Bool)
    } else if c == 'B' {
        Some(FormatCharView::UChar)
    } else if c == 'H' {
        Some(FormatCharView::UShort)
    } else if c == 'I' {
        Some(FormatCharView::UInt)
    } else if c == 'L' {
        Some(FormatCharView::ULong)
    } else if c == 'N' {
        Some(FormatCharView::USize)
    } else if c == 'Q' {
        Some(FormatCharView::ULongLong)
    } else if c == 'b' {
        Some(FormatCharView::Char)
    } else if c == 'd' {
        Some(FormatCharView::Double)
    } else if c == 'f' {
        Some(FormatCharView::Float)
    } else if c == 'h' {
        Some(FormatCharView::Short)
    } else if c == 'i' {
        Some(FormatCharView::Int)
    } else if c == 'l' {
        Some(FormatCharView::Long)
    } else if c == 'n' {
        Some(FormatCharView::Size)
    } else if c == 'q' {
        Some(FormatCharView::LongLong)
    } else if c == 's' {
        Some(FormatCharView::Array)
    } else if c == 'x' {
        Some(FormatCharView::Pad)
    } else {
        None
    }
}

/// A class of characters of which a run is read at once.
pub ghost enum CharClass {
    Space,
    Digit,
    Ident,
}

/// Whether `c` belongs to `class`.
pub open spec fn in_class(c: char, class: CharClass) -> bool {
    match class {
        CharClass::Space => is_space(c),
        CharClass::Digit => is_digit(c),
        CharClass::Ident => is_ident_char(c),
    }
}

/// How many characters of `class` stand in a row from index `i` on.
pub open spec fn run_len(s: Seq<char>, i: int, class: CharClass) -> nat
    decreases s.len() - i,
{
    if 0 <= i < s.len() && in_class(s[i], class) {
        1 + run_len(s, i + 1, class)
    } else {
        0
    }
}

/// How many white-space characters stand in a row from index `i` on.
pub open spec fn space_run(s: Seq<char>, i: int) -> nat {
    run_len(s, i, CharClass::Space)
}

/// How many decimal digits stand in a row from index `i` on.
pub open spec fn digit_run(s: Seq<char>, i: int) -> nat {
    run_len(s, i, CharClass::Digit)
}

/// How many name characters stand in a row from index `i` on.
pub open spec fn ident_run(s: Seq<char>, i: int) -> nat {
    run_len(s, i, CharClass::Ident)
}

/// The number that the `len` digits from index `from` on spell in base ten.
pub open spec fn decimal_value(s: Seq<char>, from: int, len: nat) -> nat
    decreases len,
{
    if len == 0 {
        0
    } else {
        decimal_value(s, from, (len - 1) as nat) * 10 + digit_value(s[from + len - 1])
    }
}

/// The repeat count that `len` digits from index `from` on denote: none
/// where there is no digit, and none where the number does not fit a `usize`.
pub open spec fn repeat_of(s: Seq<char>, from: int, len: nat) -> Option<usize> {
    if len == 0 || decimal_value(s, from, len) > usize::MAX {
        None
    } else {
        Some(decimal_value(s, from, len) as usize)
    }
}

/// The code that starts at index `i`, with the index behind it. `i` is the
/// index of a character that is no white space.
pub open spec fn code_at(s: Seq<char>, i: int) -> Result<(FormatCodeView, int), ParseError> {
    let digits = digit_run(s, i);
    let at = i + digits;
    let repeat = repeat_of(s, i, digits);
    if at >= s.len() {
        Err(ParseError::MissingCharacter { position: at as usize })
    } else if is_space(s[at]) {
        Err(ParseError::DetachedRepeat { position: at as usize })
    } else if modifier_of(s[at]) is Some {
        Err(ParseError::MisplacedModifier { position: at as usize })
    } else if s[at] == '`' {
        let len = ident_run(s, at + 1);
        let close = at + 1 + len;
        if close >= s.len() {
            Err(ParseError::UnterminatedIdent { position: at as usize })
        } else if s[close] != '`' {
            Err(ParseError::UnknownCharacter { position: close as usize })
        } else if len == 0 {
            Err(ParseError::EmptyIdent { position: at as usize })
        } else if is_digit(s[at + 1]) {
            Err(ParseError::UnknownCharacter { position: (at + 1) as usize })
        } else {
            Ok(
                (
                    FormatCodeView {
                        repeat,
                        chr: FormatCharView::Ident(s.subrange(at + 1, close)),
                    },
                    close + 1,
                ),
            )
        }
    } else {
        match format_char_of(s[at]) {
            Some(chr) => Ok((FormatCodeView { repeat, chr }, at + 1)),
            None => Err(ParseError::UnknownCharacter { position: at as usize }),
        }
    }
}

/// The codes from index `i` to the end of the string, white space between
/// them left out, or the first error met.
pub open spec fn codes_from(s: Seq<char>, i: int) -> Result<Seq<FormatCodeView>, ParseError>
    decreases s.len() - i,
{
    let start = i + space_run(s, i);
    if i < 0 || start >= s.len() {
        Ok(Seq::empty())
    } else {
        match code_at(s, start) {
            Err(e) => Err(e),
            Ok((code, next)) => match codes_from(s, next) {
                Err(e) => Err(e),
                Ok(rest) => Ok(seq![code] + rest),
            },
        }
    }
}

/// What a format string means: its mode, if its first character is a mode
/// character, and its codes in source order.
pub open spec fn spec_parse(s: Seq<char>) -> Result<FormatView, ParseError> {
    let modifier = if s.len() > 0 {
        modifier_of(s[0])
    } else {
        None
    };
    let start: int = if modifier is Some {
        1
    } else {
        0
    };
    match codes_from(s, start) {
        Err(e) => Err(e),
        Ok(codes) => Ok(FormatView { modifier, codes }),
    }
}

/// A code never ends where it starts.
pub proof fn lemma_code_advances(s: Seq<char>, i: int)
    requires
        0 <= i,
    ensures
        code_at(s, i) matches Ok((_, next)) ==> i < next <= s.len(),
{
}

/// A cursor over the characters of a format string.
pub struct Parser<'a> {
    source: &'a str,
    chars: Vec<char>,
    pos: usize,
}

impl<'a> Parser<'a> {
    /// The characters of the string being read.
    pub closed spec fn input(&self) -> Seq<char> {
        self.chars@
    }

    /// The index of the next character to read.
    pub closed spec fn position(&self) -> int {
        self.pos as int
    }

    /// The cursor stands in the string or at its end.
    pub closed spec fn wf(&self) -> bool {
        &&& self.chars@ == self.source@
        &&& self.pos <= self.chars.len()
    }

    /// A cursor at the start of `source`.
    pub fn new(source: &'a str) -> (p: Parser<'a>)
        ensures
            p.wf(),
            p.input() == source@,
            p.position() == 0,
    {
        broadcast use vstd::string::group_string_axioms;

        let mut chars: Vec<char> = Vec::new();
        for c in it: source.chars()
            invariant
                it.seq() == source@,
                chars@ == source@.take(it.index() as int),
        {
            chars.push(c);
        }
        assert(chars@ =~= source@);
        Parser { source, chars, pos: 0 }
    }

    /// Whether every character has been read.
    pub fn at_end(&self) -> (end: bool)
        requires
            self.wf(),
        ensures
            end == (self.position() >= self.input().len()),
    {
        self.pos >= self.chars.len()
    }

    /// Reads the mode character, if the next character is one.
    pub fn parse_modifier(&mut self) -> (modifier: Option<Modifier>)
        requires
            old(self).wf(),
        ensures
            final(self).wf(),
            final(self).input() == old(self).input(),
            modifier == if old(self).position() < old(self).input().len() {
                modifier_of(old(self).input()[old(self).position()])
            } else {
                None
            },
            final(self).position() == old(self).position() + if modifier is Some {
                1int
            } else {
                0int
            },
    {
        if self.pos >= self.chars.len() {
            return None;
        }
        let c = self.chars[self.pos];
        let modifier = if c == '@' {
            Some(Modifier::Native)
        } else if c == '=' {
            Some(Modifier::NativeStandard)
        } else if c == '<' {
            Some(Modifier::LittleEndian)
        } else if c == '>' || c == '!' {
            Some(Modifier::BigEndian)
        } else {
            None
        };
        if modifier.is_some() {
            self.pos = self.pos + 1;
        }
        modifier
    }

    /// Moves past the white space in front of the cursor.
    pub fn skip_whitespace(&mut self)
        requires
            old(self).wf(),
        ensures
            final(self).wf(),
            final(self).input() == old(self).input(),
            final(self).position() == old(self).position() + space_run(
                old(self).input(),
                old(self).position(),
            ),
    {
        let ghost start = self.pos as int;
        while self.pos < self.chars.len() && is_space_char(self.chars[self.pos])
            invariant
                self.wf(),
                self.chars@ == old(self).chars@,
                start == old(self).pos,
                start <= self.pos,
                space_run(self.chars@, start) == (self.pos - start) + space_run(
                    self.chars@,
                    self.pos as int,
                ),
            decreases self.chars.len() - self.pos,
        {
            self.pos = self.pos + 1;
        }
    }

    /// Reads the digits in front of the cursor as a repeat count.
    pub fn parse_repeat(&mut self) -> (repeat: Option<usize>)
        requires
            old(self).wf(),
        ensures
            final(self).wf(),
            final(self).input() == old(self).input(),
            final(self).position() == old(self).position() + digit_run(
                old(self).input(),
                old(self).position(),
            ),
            repeat == repeat_of(
                old(self).input(),
                old(self).position(),
                digit_run(old(self).input(), old(self).position()),
            ),
    {
        let ghost start = self.pos as int;
        let begin: usize = self.pos;
        let mut value: Option<usize> = Some(0);
        while self.pos < self.chars.len() && is_digit_char(self.chars[self.pos])
            invariant
                self.wf(),
                self.chars@ == old(self).chars@,
                start == old(self).pos,
                begin == start,
                start <= self.pos,
                digit_run(self.chars@, start) == (self.pos - start) + digit_run(
                    self.chars@,
                    self.pos as int,
                ),
                value matches Some(v) ==> v == decimal_value(
                    self.chars@,
                    start,
                    (self.pos - start) as nat,
                ),
                value is None ==> decimal_value(self.chars@, start, (self.pos - start) as nat)
                    > usize::MAX,
            decreases self.chars.len() - self.pos,
        {
            let digit: usize = digit_of(self.chars[self.pos]);
            value = match value {
                Some(v) => {
                    if v <= (usize::MAX - digit) / 10 {
                        Some(v * 10 + digit)
                    } else {
                        None
                    }
                },
                None => None,
            };
            self.pos = self.pos + 1;
        }
        if self.pos == begin {
            None
        } else {
            value
        }
    }

    /// Reads one code: a repeat count, if there is one, and the format
    /// character or back-quoted name behind it. On an error the cursor
    /// stays where it was.
    pub fn parse_code(&mut self) -> (res: Result<FormatCode, ParseError>)
        requires
            old(self).wf(),
        ensures
            final(self).wf(),
            final(self).input() == old(self).input(),
            res matches Ok(code) ==> code_at(old(self).input(), old(self).position()) == Ok::<
                (FormatCodeView, int),
                ParseError,
            >((code@, final(self).position())),
            res matches Err(e) ==> code_at(old(self).input(), old(self).position()) == Err::<
                (FormatCodeView, int),
                ParseError,
            >(e) && final(self).position() == old(self).position(),
    {
        let begin: usize = self.pos;
        let res = self.read_code();
        if res.is_err() {
            self.pos = begin;
        }
        res
    }

    /// Reads one code, and leaves the cursor in it on an error.
    fn read_code(&mut self) -> (res: Result<FormatCode, ParseError>)
        requires
            old(self).wf(),
        ensures
            final(self).wf(),
            final(self).input() == old(self).input(),
            res matches Ok(code) ==> code_at(old(self).input(), old(self).position()) == Ok::<
                (FormatCodeView, int),
                ParseError,
            >((code@, final(self).position())),
            res matches Err(e) ==> code_at(old(self).input(), old(self).position()) == Err::<
                (FormatCodeView, int),
                ParseError,
            >(e),
    {
        let repeat = self.parse_repeat();
        let at: usize = self.pos;
        if at >= self.chars.len() {
            return Err(ParseError::MissingCharacter { position: at });
        }
        let c = self.chars[at];
        if is_space_char(c) {
            return Err(ParseError::DetachedRepeat { position: at });
        }
        if c == '@' || c == '=' || c == '<' || c == '>' || c == '!' {
            return Err(ParseError::MisplacedModifier { position: at });
        }
        if c == '`' {
            self.pos = at + 1;
            let ghost s = self.chars@;
            while self.pos < self.chars.len() && is_ident_char_exec(self.chars[self.pos])
                invariant
                    self.wf(),
                    self.chars@ == s,
                    at < self.pos,
                    ident_run(s, at + 1) == (self.pos - (at + 1)) + ident_run(s, self.pos as int),
                decreases self.chars.len() - self.pos,
            {
                self.pos = self.pos + 1;
            }
            let close: usize = self.pos;
            if close >= self.chars.len() {
                return Err(ParseError::UnterminatedIdent { position: at });
            }
            if self.chars[close] != '`' {
                return Err(ParseError::UnknownCharacter { position: close });
            }
            if close == at + 1 {
                return Err(ParseError::EmptyIdent { position: at });
            }
            if is_digit_char(self.chars[at + 1]) {
                return Err(ParseError::UnknownCharacter { position: at + 1 });
            }
            let name = self.source.substring_char(at + 1, close).to_owned();
            self.pos = close + 1;
            return Ok(FormatCode { repeat, chr: FormatChar::Ident(name) });
        }
        match format_char(c) {
            Some(chr) => {
                self.pos = at + 1;
                Ok(FormatCode { repeat, chr })
            },
            None => Err(ParseError::UnknownCharacter { position: at }),
        }
    }
}

fn is_space_char(c: char) -> (b: bool)
    ensures
        b == is_space(c),
{
    c == ' ' || c == '\t' || c == '\n' || c == '\r'
}

fn is_digit_char(c: char) -> (b: bool)
    ensures
        b == is_digit(c),
{
    '0' <= c && c <= '9'
}

fn is_ident_char_exec(c: char) -> (b: bool)
    ensures
        b == is_ident_char(c),
{
    ('a' <= c && c <= 'z') || ('A' <= c && c <= 'Z') || ('0' <= c && c <= '9') || c == '_'
}

fn digit_of(c: char) -> (d: usize)
    requires
        is_digit(c),
    ensures
        d == digit_value(c),
        d <= 9,
{
    (c as u32 - '0' as u32) as usize
}

fn format_char(c: char) -> (chr: Option<FormatChar>)
    ensures
        chr matches Some(k) ==> format_char_of(c) == Some(k@),
        chr is None ==> format_char_of(c) is None,
{
    match c {
        '?' => Some(FormatChar::Bool),
        'B' => Some(FormatChar::UChar),
        'H' => Some(FormatChar::UShort),
        'I' => Some(FormatChar::UInt),
        'L' => Some(FormatChar::ULong),
        'N' => Some(FormatChar::USize),
        'Q' => Some(FormatChar::ULongLong),
        'b' => Some(FormatChar::Char),
        'd' => Some(FormatChar::Double),
        'f' => Some(FormatChar::Float),
        'h' => Some(FormatChar::Short),
        'i' => Some(FormatChar::Int),
        'l' => Some(FormatChar::Long),
        'n' => Some(FormatChar::Size),
        'q' => Some(FormatChar::LongLong),
        's' => Some(FormatChar::Array),
        'x' => Some(FormatChar::Pad),
        _ => None,
    }
}

/// Parses a format string.
///
/// The result is that of [`spec_parse`] on the string's characters: the
/// mode and the codes in source order, or the first error from the left.
pub fn parse(inp: &str) -> (res: Result<Format, ParseError>)
    ensures
        res matches Ok(format) ==> spec_parse(inp@) == Ok::<FormatView, ParseError>(format@),
        res matches Err(e) ==> spec_parse(inp@) == Err::<FormatView, ParseError>(e),
{
    let mut parser = Parser::new(inp);
    let modifier = parser.parse_modifier();
    let ghost s = inp@;
    let ghost start = parser.position();
    let mut codes: Vec<FormatCode> = Vec::new();
    loop
        invariant
            parser.wf(),
            parser.input() == s,
            s == inp@,
            modifier == if s.len() > 0 {
                modifier_of(s[0])
            } else {
                None
            },
            start == if modifier is Some {
                1int
            } else {
                0int
            },
            0 <= start <= parser.position(),
            codes_from(s, start) == match codes_from(s, parser.position()) {
                Ok(rest) => Ok::<Seq<FormatCodeView>, ParseError>(codes_view(codes@) + rest),
                Err(e) => Err(e),
            },
        decreases s.len() - parser.position(),
    {
        let ghost before = parser.position();
        parser.skip_whitespace();
        if parser.at_end() {
            proof {
                assert(codes_from(s, before) == Ok::<Seq<FormatCodeView>, ParseError>(
                    Seq::empty(),
                ));
                assert(codes_view(codes@) + Seq::<FormatCodeView>::empty() =~= codes_view(
                    codes@,
                ));
            }
            return Ok(Format { modifier, codes });
        }
        let ghost at = parser.position();
        proof {
            lemma_code_advances(s, at);
        }
        match parser.parse_code() {
            Err(e) => {
                return Err(e);
            },
            Ok(code) => {
                proof {
                    let prev = codes_view(codes@);
                    let now = codes_view(codes@.push(code));
                    assert(now =~= prev.push(code@));
                    assert forall|rest: Seq<FormatCodeView>|
                        prev + (seq![code@] + rest) == #[trigger] (now + rest) by {
                        assert(prev + (seq![code@] + rest) =~= now + rest);
                    }
                }
                codes.push(code);
            },
        }
    }
}

} // verus!
