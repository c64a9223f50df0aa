//! The lexical layer: the source text as bytes, and the tokens that the
//! grammar is made of. Positions are byte offsets into the text.
//!
//! A scanner returns `None` where its token does not stand at the position;
//! it never reads behind the end of the text.

use vstd::prelude::*;
use vstd::string::{StringExecFns, StringSliceAdditionalSpecFns};
use vstd::utf8::{
    encode_utf8_valid_utf8, is_char_boundary, is_char_boundary_iff_not_is_continuation_byte,
    is_char_boundary_start_end_of_seq, is_continuation_byte, length_of_first_scalar,
    valid_utf8_split,
};

verus! {

/// The bits of one float literal of a text, as the host has computed them.
#[derive(Debug, Clone, Copy, PartialEq, Eq, Structural)]
pub struct FloatBits {
    /// The byte position at which the literal starts.
    pub at: usize,
    /// The bits of the IEEE-754 double that the literal denotes.
    pub bits: u64,
}

/// One float literal of a text.
#[derive(Debug)]
pub struct FloatLiteral {
    /// The byte position at which the literal starts.
    pub at: usize,
    /// The literal as decimal digits, an optional fraction and an optional
    /// exponent marked by `e`.
    pub text: String,
}

/// A text that is being parsed, with the bits of its float literals. Its view
/// is the sequence of its bytes.
pub struct Source<'a> {
    text: &'a str,
    bytes: &'a [u8],
    floats: &'a Vec<FloatBits>,
    lenient: bool,
}

impl<'a> View for Source<'a> {
    type V = Seq<u8>;

    closed spec fn view(&self) -> Seq<u8> {
        self.bytes@
    }
}

/// The parts of a number literal: where its digits end, where its fraction
/// ends and where its exponent ends. A part that is missing ends where it
/// starts.
#[derive(Debug, Clone, Copy, PartialEq, Eq, Structural)]
pub struct NumberSpan {
    pub start: usize,
    pub digits_end: usize,
    pub fraction_end: usize,
    pub end: usize,
}

/// Whether a byte is white space: a blank, a tab, a line feed or a carriage
/// return.
pub open spec fn is_space(byte: u8) -> bool {
    byte == 0x20 || byte == 0x09 || byte == 0x0a || byte == 0x0d
}

/// Whether a byte is a decimal digit.
pub open spec fn is_digit(byte: u8) -> bool {
    0x30 <= byte <= 0x39
}

/// Whether a byte can begin a name: a letter or an underscore.
pub open spec fn is_ident_start(byte: u8) -> bool {
    (0x41 <= byte <= 0x5a) || (0x61 <= byte <= 0x7a) || byte == 0x5f
}

/// Whether a byte can continue a name: a letter, an underscore or a digit.
pub open spec fn is_ident_char(byte: u8) -> bool {
    is_ident_start(byte) || is_digit(byte)
}

/// Whether every byte from `from` up to `to` is of a class.
pub open spec fn all_in(bytes: Seq<u8>, from: int, to: int, class: spec_fn(u8) -> bool) -> bool {
    forall|i: int| from <= i < to ==> class(#[trigger] bytes[i])
}

/// Whether the bytes of `word` stand at `pos`.
pub open spec fn stands_at(bytes: Seq<u8>, pos: int, word: Seq<u8>) -> bool {
    &&& 0 <= pos
    &&& pos + word.len() <= bytes.len()
    &&& bytes.subrange(pos, pos + word.len()) == word
}

/// Whether the bytes of `word` stand right before `end`.
pub open spec fn spelled(bytes: Seq<u8>, end: int, word: &str) -> bool {
    stands_at(bytes, end - word.spec_bytes().len(), word.spec_bytes())
}

/// Whether the bytes are those of a reserved word.
pub open spec fn is_reserved(word: Seq<u8>) -> bool {
    word == "null".spec_bytes() || word == "newat".spec_bytes() || word == "true".spec_bytes()
        || word == "false".spec_bytes() || word == "not".spec_bytes() || word
        == "and".spec_bytes() || word == "or".spec_bytes() || word == "impl".spec_bytes() || word
        == "iff".spec_bytes() || word == "in".spec_bytes() || word == "notin".spec_bytes() || word
        == "subset".spec_bytes() || word == "with".spec_bytes() || word == "less".spec_bytes()
        || word == "union".spec_bytes() || word == "mod".spec_bytes() || word
        == "div".spec_bytes() || word == "inter".spec_bytes() || word == "if".spec_bytes() || word
        == "case".spec_bytes() || word == "func".spec_bytes() || word == "return".spec_bytes()
        || word == "program".spec_bytes() || word == "choose".spec_bytes() || word
        == "forall".spec_bytes() || word == "exists".spec_bytes()
}

/// Where the fraction of a number ends whose digits end at `digits_end`: a
/// point belongs to the number only where a digit follows it.
pub open spec fn fraction_end_of(bytes: Seq<u8>, digits_end: int) -> int {
    if digits_end + 1 < bytes.len() && bytes[digits_end] == 0x2e && is_digit(
        bytes[digits_end + 1],
    ) {
        run_end(bytes, digits_end + 1, |b: u8| is_digit(b))
    } else {
        digits_end
    }
}

/// Whether a byte marks an exponent: one of `e`, `E`, `f`, `F`.
pub open spec fn is_exponent_marker(byte: u8) -> bool {
    byte == 0x65 || byte == 0x45 || byte == 0x66 || byte == 0x46
}

/// Where the exponent of a number ends whose fraction ends at
/// `fraction_end`: a marker, with or without a sign behind it, belongs to the
/// number only where a digit follows.
pub open spec fn exponent_end_of(bytes: Seq<u8>, fraction_end: int) -> int {
    if fraction_end < bytes.len() && is_exponent_marker(bytes[fraction_end]) {
        let signed = fraction_end + 1 < bytes.len() && (bytes[fraction_end + 1] == 0x2b
            || bytes[fraction_end + 1] == 0x2d);
        let digits = if signed {
            fraction_end + 2
        } else {
            fraction_end + 1
        };
        if digits < bytes.len() && is_digit(bytes[digits]) {
            run_end(bytes, digits, |b: u8| is_digit(b))
        } else {
            fraction_end
        }
    } else {
        fraction_end
    }
}

/// The position of the quote that closes a string whose content starts at
/// `at`, or a position behind the text if none does. A backslash takes the
/// byte after it along.
pub open spec fn string_close(bytes: Seq<u8>, at: int) -> int
    decreases bytes.len() - at,
{
    if at < 0 || at >= bytes.len() || bytes[at] == 0x22 {
        at
    } else if bytes[at] == 0x5c && at + 1 < bytes.len() {
        string_close(bytes, at + 2)
    } else {
        string_close(bytes, at + 1)
    }
}

/// The end of the longest run of bytes of a class that starts at `pos`.
pub open spec fn run_end(bytes: Seq<u8>, pos: int, class: spec_fn(u8) -> bool) -> int
    decreases bytes.len() - pos,
{
    if 0 <= pos < bytes.len() && class(bytes[pos]) {
        run_end(bytes, pos + 1, class)
    } else {
        pos
    }
}

/// A run ends at the first byte that is not of the class.
pub proof fn lemma_run_end(bytes: Seq<u8>, pos: int, class: spec_fn(u8) -> bool)
    requires
        0 <= pos <= bytes.len(),
    ensures
        pos <= run_end(bytes, pos, class) <= bytes.len(),
        all_in(bytes, pos, run_end(bytes, pos, class), class),
        run_end(bytes, pos, class) < bytes.len() ==> !class(bytes[run_end(bytes, pos, class)]),
    decreases bytes.len() - pos,
{
    if pos < bytes.len() && class(bytes[pos]) {
        lemma_run_end(bytes, pos + 1, class);
    }
}

/// Whether a byte is white space.
pub fn space(byte: u8) -> (r: bool)
    ensures
        r == is_space(byte),
{
    byte == 0x20 || byte == 0x09 || byte == 0x0a || byte == 0x0d
}

/// Whether a byte is a decimal digit.
pub fn digit(byte: u8) -> (r: bool)
    ensures
        r == is_digit(byte),
{
    0x30 <= byte && byte <= 0x39
}

/// Whether a byte can begin a name.
pub fn ident_start(byte: u8) -> (r: bool)
    ensures
        r == is_ident_start(byte),
{
    (0x41 <= byte && byte <= 0x5a) || (0x61 <= byte && byte <= 0x7a) || byte == 0x5f
}

/// Whether a byte can continue a name.
pub fn ident_char(byte: u8) -> (r: bool)
    ensures
        r == is_ident_char(byte),
{
    ident_start(byte) || digit(byte)
}

impl<'a> Source<'a> {
    /// The bytes are those of the text.
    pub closed spec fn wf(&self) -> bool {
        self.bytes@ == self.text.spec_bytes()
    }

    /// The bits of the text's float literals, as the host has handed them
    /// over.
    pub closed spec fn table(&self) -> Seq<FloatBits> {
        self.floats@
    }

    /// Whether a float literal that the table lacks is read as zero instead
    /// of being refused.
    pub closed spec fn is_lenient(&self) -> bool {
        self.lenient
    }

    /// The text as the grammar sees it.
    pub open spec fn text(&self) -> Text {
        Text { bytes: self@, table: self.table(), lenient: self.is_lenient() }
    }

    /// A text to be parsed, with the bits of its float literals.
    pub fn new(text: &'a str, floats: &'a Vec<FloatBits>, lenient: bool) -> (src: Source<'a>)
        ensures
            src.wf(),
            src@ == text.spec_bytes(),
            src.table() == floats@,
            src.is_lenient() == lenient,
    {
        Source { text, bytes: text.as_bytes(), floats, lenient }
    }

    /// The byte at a position.
    pub fn byte(&self, at: usize) -> (byte: u8)
        requires
            at < self@.len(),
        ensures
            byte == self@[at as int],
    {
        self.bytes[at]
    }

    /// The number of bytes of the text.
    pub fn len(&self) -> (n: usize)
        ensures
            n == self@.len(),
    {
        self.bytes.len()
    }

    /// The position of the first byte from `pos` on that is no white space.
    pub fn skip_ws(&self, pos: usize) -> (end: usize)
        requires
            pos <= self@.len(),
        ensures
            end == run_end(self@, pos as int, |b: u8| is_space(b)),
            pos <= end <= self@.len(),
    {
        let mut end = pos;
        proof {
            lemma_run_end(self@, pos as int, |b: u8| is_space(b));
        }
        while end < self.bytes.len() && space(self.bytes[end])
            invariant
                pos <= end <= self@.len(),
                run_end(self@, pos as int, |b: u8| is_space(b)) == run_end(
                    self@,
                    end as int,
                    |b: u8| is_space(b),
                ),
            decreases self@.len() - end,
        {
            end += 1;
        }
        end
    }

    /// The position of the first byte from `pos` on that is no digit.
    pub fn skip_digits(&self, pos: usize) -> (end: usize)
        requires
            pos <= self@.len(),
        ensures
            end == run_end(self@, pos as int, |b: u8| is_digit(b)),
            pos <= end <= self@.len(),
    {
        let mut end = pos;
        proof {
            lemma_run_end(self@, pos as int, |b: u8| is_digit(b));
        }
        while end < self.bytes.len() && digit(self.bytes[end])
            invariant
                pos <= end <= self@.len(),
                run_end(self@, pos as int, |b: u8| is_digit(b)) == run_end(
                    self@,
                    end as int,
                    |b: u8| is_digit(b),
                ),
            decreases self@.len() - end,
        {
            end += 1;
        }
        end
    }

    /// The position of the first byte from `pos` on that cannot be part of a
    /// name.
    pub fn skip_ident_chars(&self, pos: usize) -> (end: usize)
        requires
            pos <= self@.len(),
        ensures
            end == run_end(self@, pos as int, |b: u8| is_ident_char(b)),
            pos <= end <= self@.len(),
    {
        let mut end = pos;
        proof {
            lemma_run_end(self@, pos as int, |b: u8| is_ident_char(b));
        }
        while end < self.bytes.len() && ident_char(self.bytes[end])
            invariant
                pos <= end <= self@.len(),
                run_end(self@, pos as int, |b: u8| is_ident_char(b)) == run_end(
                    self@,
                    end as int,
                    |b: u8| is_ident_char(b),
                ),
            decreases self@.len() - end,
        {
            end += 1;
        }
        end
    }

    /// Whether the bytes of `word` stand at `pos`, and where they end.
    pub fn match_text(&self, pos: usize, word: &str) -> (end: Option<usize>)
        requires
            pos <= self@.len(),
        ensures
            match end {
                Some(end) => stands_at(self@, pos as int, word.spec_bytes()) && end == pos
                    + word.spec_bytes().len(),
                None => !stands_at(self@, pos as int, word.spec_bytes()),
            },
    {
        let word_bytes = word.as_bytes();
        let count = word_bytes.len();
        if count > self.bytes.len() - pos {
            return None;
        }
        let len = self.bytes.len();
        let mut i: usize = 0;
        while i < count
            invariant
                i <= count,
                count == word_bytes@.len(),
                len == self@.len(),
                pos + count <= self@.len(),
                word_bytes@ == word.spec_bytes(),
                forall|k: int| 0 <= k < i ==> self@[pos + k] == word_bytes@[k],
            decreases count - i,
        {
            if self.bytes[pos + i] != word_bytes[i] {
                assert(self@.subrange(pos as int, pos + count)[i as int] != word_bytes@[i as int]);
                return None;
            }
            i += 1;
        }
        assert(self@.subrange(pos as int, pos + count) =~= word_bytes@);
        Some(pos + count)
    }

    /// A symbol: white space, then the bytes of `word`.
    pub fn symbol(&self, pos: usize, word: &str) -> (end: Option<usize>)
        requires
            pos <= self@.len(),
        ensures
            end matches Some(end) ==> pos < end <= self@.len(),
            end matches Some(end) ==> spelled(self@, end as int, word) && end == run_end(
                self@,
                pos as int,
                |b: u8| is_space(b),
            ) + word.spec_bytes().len(),
            end is Some <==> word.spec_bytes().len() > 0 && stands_at(
                self@,
                run_end(self@, pos as int, |b: u8| is_space(b)),
                word.spec_bytes(),
            ),
            at_end(end) == symbol_end(self@, pos as int, word),
    {
        proof {
            reveal(symbol_end);
        }
        let start = self.skip_ws(pos);
        match self.match_text(start, word) {
            Some(end) => if end > start {
                Some(end)
            } else {
                None
            },
            None => None,
        }
    }

    /// A symbol that is not the beginning of a longer one: white space, the
    /// bytes of `word`, and then no byte `next`.
    pub fn symbol_not_before(&self, pos: usize, word: &str, next: u8) -> (end: Option<usize>)
        requires
            pos <= self@.len(),
        ensures
            end matches Some(end) ==> pos < end <= self@.len(),
            end matches Some(end) ==> end == self@.len() || self@[end as int] != next,
            end matches Some(end) ==> spelled(self@, end as int, word),
            end is Some <==> {
                let start = run_end(self@, pos as int, |b: u8| is_space(b));
                let behind = start + word.spec_bytes().len();
                &&& word.spec_bytes().len() > 0
                &&& stands_at(self@, start, word.spec_bytes())
                &&& (behind == self@.len() || self@[behind] != next)
            },
            at_end(end) == symbol_not_before_end(self@, pos as int, word, next),
    {
        proof {
            reveal(symbol_not_before_end);
        }
        match self.symbol(pos, word) {
            Some(end) => {
                if end < self.bytes.len() && self.bytes[end] == next {
                    None
                } else {
                    Some(end)
                }
            },
            None => None,
        }
    }

    /// A word: white space, the bytes of `word`, and then no byte that could
    /// continue a name.
    pub fn keyword(&self, pos: usize, word: &str) -> (end: Option<usize>)
        requires
            pos <= self@.len(),
        ensures
            end matches Some(end) ==> pos < end <= self@.len(),
            end matches Some(end) ==> end == self@.len() || !is_ident_char(
                self@[end as int],
            ),
            end matches Some(end) ==> spelled(self@, end as int, word),
            end is Some <==> {
                let start = run_end(self@, pos as int, |b: u8| is_space(b));
                let behind = start + word.spec_bytes().len();
                &&& word.spec_bytes().len() > 0
                &&& stands_at(self@, start, word.spec_bytes())
                &&& (behind == self@.len() || !is_ident_char(self@[behind]))
            },
            at_end(end) == keyword_end(self@, pos as int, word),
    {
        proof {
            reveal(keyword_end);
        }
        match self.symbol(pos, word) {
            Some(end) => {
                if end < self.bytes.len() && ident_char(self.bytes[end]) {
                    None
                } else {
                    Some(end)
                }
            },
            None => None,
        }
    }

    /// The part of the text from `from` up to `to`, if these are positions in
    /// the text, in this order, and no character's encoding is cut through at
    /// either.
    pub fn slice(&self, from: usize, to: usize) -> (part: Option<&'a str>)
        requires
            self.wf(),
        ensures
            part matches Some(part) ==> from <= to <= self@.len() && part.spec_bytes()
                == self@.subrange(from as int, to as int),
            part is Some <==> {
                &&& from <= to <= self@.len()
                &&& (from < self@.len() ==> !is_continuation_byte(self@[from as int]))
                &&& (to < self@.len() ==> !is_continuation_byte(self@[to as int]))
            },
    {
        if from > to || to > self.bytes.len() {
            return None;
        }
        proof {
            encode_utf8_valid_utf8(self.text@);
            if to < self@.len() {
                is_char_boundary_iff_not_is_continuation_byte(self@, to as int);
            } else {
                is_char_boundary_start_end_of_seq(self@);
            }
        }
        if !self.text.is_char_boundary(to) {
            return None;
        }
        let (head, _) = self.text.split_at(to);
        proof {
            let kept = head.spec_bytes();
            encode_utf8_valid_utf8(head@);
            if from < kept.len() {
                assert(kept[from as int] == self@[from as int]);
                is_char_boundary_iff_not_is_continuation_byte(kept, from as int);
            } else {
                is_char_boundary_start_end_of_seq(kept);
            }
        }
        if !head.is_char_boundary(from) {
            return None;
        }
        let (_, part) = head.split_at(from);
        assert(part.spec_bytes() =~= self@.subrange(from as int, to as int));
        Some(part)
    }

    /// The part of the text from `from` up to `to`, where no character's
    /// encoding is cut through at either end.
    pub fn cut(&self, from: usize, to: usize) -> (part: &'a str)
        requires
            self.wf(),
            from <= to <= self@.len(),
            from < self@.len() ==> !is_continuation_byte(self@[from as int]),
            to < self@.len() ==> !is_continuation_byte(self@[to as int]),
        ensures
            part.spec_bytes() == self@.subrange(from as int, to as int),
    {
        proof {
            let bytes = self@;
            encode_utf8_valid_utf8(self.text@);
            if to < bytes.len() {
                is_char_boundary_iff_not_is_continuation_byte(bytes, to as int);
            } else {
                is_char_boundary_start_end_of_seq(bytes);
            }
        }
        let (head, _) = self.text.split_at(to);
        proof {
            let kept = head.spec_bytes();
            encode_utf8_valid_utf8(head@);
            if from < kept.len() {
                assert(kept[from as int] == self@[from as int]);
                is_char_boundary_iff_not_is_continuation_byte(kept, from as int);
            } else {
                is_char_boundary_start_end_of_seq(kept);
            }
        }
        let (_, part) = head.split_at(from);
        assert(part.spec_bytes() =~= self@.subrange(from as int, to as int));
        part
    }

    /// In the text no character's encoding is cut through behind a byte
    /// below 128.
    pub proof fn lemma_after_ascii(&self, at: int)
        requires
            self.wf(),
            0 <= at,
            at + 1 < self@.len(),
            self@[at] < 0x80,
        ensures
            !is_continuation_byte(self@[at + 1]),
    {
        let bytes = self@;
        encode_utf8_valid_utf8(self.text@);
        is_char_boundary_iff_not_is_continuation_byte(bytes, at);
        valid_utf8_split(bytes, at);
        let rest = bytes.subrange(at, bytes.len() as int);
        assert(rest[0] == bytes[at]);
        assert(rest[1] == bytes[at + 1]);
        assert(is_char_boundary(rest, 1)) by {
            reveal_with_fuel(is_char_boundary, 2);
            assert(length_of_first_scalar(rest) == 1);
        }
        is_char_boundary_iff_not_is_continuation_byte(rest, 1);
    }

    /// Whether the bytes from `from` up to `to` are a reserved word.
    pub fn reserved(&self, from: usize, to: usize) -> (r: bool)
        requires
            from <= to <= self@.len(),
        ensures
            r == is_reserved(self@.subrange(from as int, to as int)),
    {
        let count = to - from;
        self.is_word(from, count, "null") || self.is_word(from, count, "newat") || self.is_word(
            from,
            count,
            "true",
        ) || self.is_word(from, count, "false") || self.is_word(from, count, "not")
            || self.is_word(from, count, "and") || self.is_word(from, count, "or") || self.is_word(
            from,
            count,
            "impl",
        ) || self.is_word(from, count, "iff") || self.is_word(from, count, "in") || self.is_word(
            from,
            count,
            "notin",
        ) || self.is_word(from, count, "subset") || self.is_word(from, count, "with")
            || self.is_word(from, count, "less") || self.is_word(from, count, "union")
            || self.is_word(from, count, "mod") || self.is_word(from, count, "div")
            || self.is_word(from, count, "inter") || self.is_word(from, count, "if")
            || self.is_word(from, count, "case") || self.is_word(from, count, "func")
            || self.is_word(from, count, "return") || self.is_word(from, count, "program")
            || self.is_word(from, count, "choose") || self.is_word(from, count, "forall")
            || self.is_word(from, count, "exists")
    }

    /// Whether the `count` bytes at `from` are those of `word`.
    fn is_word(&self, from: usize, count: usize, word: &str) -> (r: bool)
        requires
            from + count <= self@.len(),
        ensures
            r == (count == word.spec_bytes().len() && stands_at(
                self@,
                from as int,
                word.spec_bytes(),
            )),
    {
        if word.len() != count {
            return false;
        }
        self.match_text(from, word).is_some()
    }

    /// The span of a name: white space, then a letter or underscore and the
    /// letters, digits and underscores that follow it.
    pub fn name_span(&self, pos: usize) -> (span: Option<(usize, usize)>)
        requires
            pos <= self@.len(),
        ensures
            span matches Some((from, to)) ==> pos <= from < to <= self@.len()
                && is_ident_start(self@[from as int]) && from == run_end(
                self@,
                pos as int,
                |b: u8| is_space(b),
            ) && to == run_end(self@, from as int, |b: u8| is_ident_char(b)),
            span is None <==> {
                let from = run_end(self@, pos as int, |b: u8| is_space(b));
                from >= self@.len() || !is_ident_start(self@[from])
            },
    {
        let from = self.skip_ws(pos);
        if from >= self.bytes.len() || !ident_start(self.bytes[from]) {
            return None;
        }
        let to = self.skip_ident_chars(from);
        proof {
            lemma_run_end(self@, from as int + 1, |b: u8| is_ident_char(b));
        }
        Some((from, to))
    }

    /// An identifier: a name that is no reserved word.
    pub fn ident(&self, pos: usize) -> (found: Option<(&'a str, usize)>)
        requires
            self.wf(),
            pos <= self@.len(),
        ensures
            found matches Some((_, end)) ==> pos < end <= self@.len(),
            found matches Some((name, end)) ==> {
                let from = run_end(self@, pos as int, |b: u8| is_space(b));
                &&& end == run_end(self@, from, |b: u8| is_ident_char(b))
                &&& name.spec_bytes() == self@.subrange(from, end as int)
            },
            found is Some <==> {
                let from = run_end(self@, pos as int, |b: u8| is_space(b));
                &&& from < self@.len()
                &&& is_ident_start(self@[from])
                &&& !is_reserved(
                    self@.subrange(from, run_end(self@, from, |b: u8| is_ident_char(b))),
                )
            },
            end_of(found) == ident_end(self@, pos as int),
    {
        proof {
            reveal(ident_end);
        }
        match self.name_span(pos) {
            Some((from, to)) => {
                if self.reserved(from, to) {
                    return None;
                }
                proof {
                    lemma_run_end(self@, from as int, |b: u8| is_ident_char(b));
                    assert(is_ident_char(self@[to - 1]));
                    if to < self@.len() {
                        self.lemma_after_ascii(to - 1);
                    }
                }
                Some((self.cut(from, to), to))
            },
            None => None,
        }
    }

    /// An atom: white space, a colon, and the name that follows it directly.
    pub fn atom(&self, pos: usize) -> (found: Option<(&'a str, usize)>)
        requires
            self.wf(),
            pos <= self@.len(),
        ensures
            found matches Some((_, end)) ==> pos < end <= self@.len(),
            found matches Some((name, end)) ==> {
                let colon = run_end(self@, pos as int, |b: u8| is_space(b));
                &&& end == run_end(self@, colon + 1, |b: u8| is_ident_char(b))
                &&& name.spec_bytes() == self@.subrange(colon + 1, end as int)
            },
            found is Some <==> {
                let colon = run_end(self@, pos as int, |b: u8| is_space(b));
                &&& colon + 1 < self@.len()
                &&& self@[colon] == 0x3a
                &&& is_ident_start(self@[colon + 1])
            },
            end_of(found) == atom_end(self@, pos as int),
    {
        proof {
            reveal(atom_end);
        }
        let colon = self.skip_ws(pos);
        if colon >= self.bytes.len() || self.bytes[colon] != 0x3a {
            return None;
        }
        let from = colon + 1;
        if from >= self.bytes.len() || !ident_start(self.bytes[from]) {
            return None;
        }
        let to = self.skip_ident_chars(from);
        proof {
            lemma_run_end(self@, from as int, |b: u8| is_ident_char(b));
            assert(is_ident_char(self@[to - 1]));
            if to < self@.len() {
                self.lemma_after_ascii(to - 1);
            }
        }
        Some((self.cut(from, to), to))
    }

    /// A string literal: white space, and then what stands between two double
    /// quotes, a backslash taking the byte after it along. The content is not
    /// unescaped.
    pub fn string(&self, pos: usize) -> (found: Option<(&'a str, usize)>)
        requires
            self.wf(),
            pos <= self@.len(),
        ensures
            found matches Some((_, end)) ==> pos < end <= self@.len(),
            found matches Some((content, end)) ==> {
                let quote = run_end(self@, pos as int, |b: u8| is_space(b));
                &&& end - 1 == string_close(self@, quote + 1)
                &&& content.spec_bytes() == self@.subrange(quote + 1, end - 1)
            },
            found is Some <==> {
                let quote = run_end(self@, pos as int, |b: u8| is_space(b));
                &&& quote < self@.len()
                &&& self@[quote] == 0x22
                &&& string_close(self@, quote + 1) < self@.len()
            },
            end_of(found) == string_end(self@, pos as int),
    {
        proof {
            reveal(string_end);
        }
        let quote = self.skip_ws(pos);
        if quote >= self.bytes.len() || self.bytes[quote] != 0x22 {
            return None;
        }
        let open = quote + 1;
        let mut at = open;
        while at < self.bytes.len() && self.bytes[at] != 0x22
            invariant
                open <= at <= self@.len(),
                string_close(self@, open as int) == string_close(self@, at as int),
            decreases self@.len() - at,
        {
            if self.bytes[at] == 0x5c && at + 1 < self.bytes.len() {
                at += 2;
            } else {
                at += 1;
            }
        }
        if at >= self.bytes.len() {
            return None;
        }
        proof {
            if open < self@.len() {
                self.lemma_after_ascii(quote as int);
            }
        }
        Some((self.cut(open, at), at + 1))
    }

    /// A number literal: digits, then optionally a point and digits, then
    /// optionally one of `e`, `E`, `f`, `F`, a sign and digits.
    pub fn number(&self, pos: usize) -> (found: Option<NumberSpan>)
        requires
            pos <= self@.len(),
        ensures
            found matches Some(span) ==> {
                &&& pos <= span.start < span.digits_end <= span.fraction_end <= span.end
                    <= self@.len()
                &&& span.digits_end == run_end(
                    self@,
                    span.start as int,
                    |b: u8| is_digit(b),
                )
                &&& span.fraction_end == fraction_end_of(self@, span.digits_end as int)
                &&& span.end == exponent_end_of(self@, span.fraction_end as int)
                &&& span.start == run_end(self@, pos as int, |b: u8| is_space(b))
            },
            found is None <==> {
                let start = run_end(self@, pos as int, |b: u8| is_space(b));
                start >= self@.len() || !is_digit(self@[start])
            },
    {
        let start = self.skip_ws(pos);
        self.number_at(start)
    }

    /// A number literal that starts at `start`.
    pub fn number_at(&self, start: usize) -> (found: Option<NumberSpan>)
        requires
            start <= self@.len(),
        ensures
            found matches Some(span) ==> {
                &&& span.start == start
                &&& start < span.digits_end <= span.fraction_end <= span.end <= self@.len()
                &&& span.digits_end == run_end(self@, start as int, |b: u8| is_digit(b))
                &&& span.fraction_end == fraction_end_of(self@, span.digits_end as int)
                &&& span.end == exponent_end_of(self@, span.fraction_end as int)
            },
            found is None <==> (start >= self@.len() || !is_digit(self@[start as int])),
    {
        let len = self.bytes.len();
        if start >= len || !digit(self.bytes[start]) {
            return None;
        }
        let digits_end = self.skip_digits(start);
        proof {
            lemma_run_end(self@, start as int + 1, |b: u8| is_digit(b));
        }
        // a point belongs to the number only where a digit follows it
        let mut fraction_end = digits_end;
        if digits_end < len && len - digits_end > 1 && self.bytes[digits_end] == 0x2e && digit(
            self.bytes[digits_end + 1],
        ) {
            fraction_end = self.skip_digits(digits_end + 1);
        }
        // an exponent marker belongs to the number only where digits follow it
        let mut end = fraction_end;
        if fraction_end < len {
            let marker = self.bytes[fraction_end];
            if marker == 0x65 || marker == 0x45 || marker == 0x66 || marker == 0x46 {
                let mut at = fraction_end + 1;
                if at < len && (self.bytes[at] == 0x2b || self.bytes[at] == 0x2d) {
                    at += 1;
                }
                if at < len && digit(self.bytes[at]) {
                    end = self.skip_digits(at);
                }
            }
        }
        Some(NumberSpan { start, digits_end, fraction_end, end })
    }

    /// The bits of the float literal that starts at `at`: those that `floats`
    /// holds for the position, or zero where it holds none and the source is
    /// lenient.
    pub fn float_bits(&self, at: usize) -> (bits: Option<u64>)
        ensures
            match bits {
                Some(bits) => (exists|i: int|
                    0 <= i < self.table().len() && self.table()[i].at == at
                        && self.table()[i].bits == bits) || (self.is_lenient() && bits == 0),
                None => !self.is_lenient() && forall|i: int|
                    0 <= i < self.table().len() ==> self.table()[i].at != at,
            },
            bits is Some <==> has_bits(self.text(), at as int),
    {
        let mut i: usize = 0;
        while i < self.floats.len()
            invariant
                i <= self.floats@.len(),
                forall|k: int| 0 <= k < i ==> self.floats@[k].at != at,
            decreases self.floats@.len() - i,
        {
            if self.floats[i].at == at {
                assert(self.table()[i as int].at == at);
                assert(self.text().table[i as int].at == at);
                return Some(self.floats[i].bits);
            }
            i += 1;
        }
        if self.lenient {
            Some(0)
        } else {
            None
        }
    }

    /// The integer that a run of digits denotes, if it fits 64 bits.
    pub fn integer(&self, from: usize, to: usize) -> (value: Option<i64>)
        requires
            from <= to <= self@.len(),
            all_in(self@, from as int, to as int, |b: u8| is_digit(b)),
        ensures
            match value {
                Some(value) => value == decimal(self@.subrange(from as int, to as int)),
                None => decimal(self@.subrange(from as int, to as int)) > i64::MAX,
            },
    {
        let mut value: i64 = 0;
        let mut at = from;
        let ghost digits = self@.subrange(from as int, to as int);
        assert(digits.take(0) =~= Seq::<u8>::empty());
        while at < to
            invariant
                from <= at <= to <= self@.len(),
                digits == self@.subrange(from as int, to as int),
                all_in(self@, from as int, to as int, |b: u8| is_digit(b)),
                value == decimal(digits.take(at - from)),
                value >= 0,
            decreases to - at,
        {
            let d = (self.bytes[at] - 0x30) as i64;
            proof {
                assert(is_digit(self@[at as int]));
                let next = digits.take(at - from + 1);
                assert(next.drop_last() =~= digits.take(at - from));
                assert(next.last() == self@[at as int]);
                lemma_decimal_grows(digits, at - from + 1);
            }
            if value > (i64::MAX - d) / 10 {
                assert(decimal(digits.take(at - from + 1)) > i64::MAX);
                return None;
            }
            value = value * 10 + d;
            at += 1;
        }
        assert(digits.take(to - from) =~= digits);
        Some(value)
    }

    /// The text of a number literal in the form that the host converts: as
    /// it stands, but with `e` for the exponent marker.
    pub fn float_text(&self, span: NumberSpan) -> (text: String)
        requires
            span.start < span.digits_end <= span.fraction_end <= span.end <= self@.len(),
            span.digits_end == run_end(self@, span.start as int, |b: u8| is_digit(b)),
            span.fraction_end == fraction_end_of(self@, span.digits_end as int),
            span.end == exponent_end_of(self@, span.fraction_end as int),
        ensures
            text@ == number_text(self@, span.start as int, span.end as int),
    {
        let mut text = String::new();
        let mut at = span.start;
        proof {
            lemma_number_bytes(self@, span);
        }
        while at < span.end
            invariant
                span.start <= at <= span.end <= self@.len(),
                all_in(self@, span.start as int, span.end as int, |b: u8| is_number_byte(b)),
                text@ == number_text(self@, span.start as int, at as int),
            decreases span.end - at,
        {
            assert(is_number_byte(self@[at as int]));
            text.append(number_byte_text(self.bytes[at]));
            assert(text@ =~= number_text(self@, span.start as int, at + 1));
            at += 1;
        }
        text
    }
}

/// Whether a byte can stand in a number literal: a digit, a point, a sign or
/// an exponent marker.
pub open spec fn is_number_byte(byte: u8) -> bool {
    is_digit(byte) || byte == 0x2e || byte == 0x2b || byte == 0x2d || is_exponent_marker(byte)
}

/// The character that a byte of a number literal is converted as: `e` for an
/// exponent marker, else the character that the byte is.
pub open spec fn number_char(byte: u8) -> char {
    if is_exponent_marker(byte) {
        'e'
    } else {
        byte as char
    }
}

/// The text of the number literal from `from` up to `to` in the form that the
/// host converts.
pub open spec fn number_text(bytes: Seq<u8>, from: int, to: int) -> Seq<char> {
    Seq::new((to - from) as nat, |i: int| number_char(bytes[from + i]))
}

/// Whether a float literal starts at a position: a number literal with a
/// fraction or an exponent.
pub open spec fn is_float_at(bytes: Seq<u8>, at: int) -> bool {
    &&& 0 <= at < bytes.len()
    &&& is_digit(bytes[at])
    &&& run_end(bytes, at, |b: u8| is_digit(b)) < exponent_end_of(
        bytes,
        fraction_end_of(bytes, run_end(bytes, at, |b: u8| is_digit(b))),
    )
}

/// Every byte of a number literal is a digit, a point, a sign or an exponent
/// marker.
pub proof fn lemma_number_bytes(bytes: Seq<u8>, span: NumberSpan)
    requires
        span.start < span.digits_end <= span.fraction_end <= span.end <= bytes.len(),
        span.digits_end == run_end(bytes, span.start as int, |b: u8| is_digit(b)),
        span.fraction_end == fraction_end_of(bytes, span.digits_end as int),
        span.end == exponent_end_of(bytes, span.fraction_end as int),
    ensures
        all_in(bytes, span.start as int, span.end as int, |b: u8| is_number_byte(b)),
{
    let digit = |b: u8| is_digit(b);
    lemma_run_end(bytes, span.start as int, digit);
    if span.digits_end < span.fraction_end {
        lemma_run_end(bytes, span.digits_end as int + 1, digit);
    }
    if span.fraction_end < span.end {
        let signed = span.fraction_end + 1 < bytes.len() && (bytes[span.fraction_end + 1] == 0x2b
            || bytes[span.fraction_end + 1] == 0x2d);
        let digits: int = if signed {
            span.fraction_end + 2
        } else {
            span.fraction_end + 1
        };
        lemma_run_end(bytes, digits, digit);
    }
    assert forall|i: int| span.start <= i < span.end implies is_number_byte(
        #[trigger] bytes[i],
    ) by {
        if i < span.digits_end {
            assert(digit(bytes[i]));
        } else if i < span.fraction_end {
            if i > span.digits_end {
                assert(digit(bytes[i]));
            }
        } else {
            let signed = span.fraction_end + 1 < bytes.len() && (bytes[span.fraction_end + 1]
                == 0x2b || bytes[span.fraction_end + 1] == 0x2d);
            let digits: int = if signed {
                span.fraction_end + 2
            } else {
                span.fraction_end + 1
            };
            if i >= digits {
                assert(digit(bytes[i]));
            }
        }
    }
}

/// The text that a byte of a number literal is converted as.
pub fn number_byte_text(byte: u8) -> (text: &'static str)
    requires
        is_number_byte(byte),
    ensures
        text@ == seq![number_char(byte)],
{
    proof {
        reveal_strlit("0");
        reveal_strlit("1");
        reveal_strlit("2");
        reveal_strlit("3");
        reveal_strlit("4");
        reveal_strlit("5");
        reveal_strlit("6");
        reveal_strlit("7");
        reveal_strlit("8");
        reveal_strlit("9");
        reveal_strlit(".");
        reveal_strlit("+");
        reveal_strlit("-");
        reveal_strlit("e");
    }
    let text = if byte == 0x30 {
        "0"
    } else if byte == 0x31 {
        "1"
    } else if byte == 0x32 {
        "2"
    } else if byte == 0x33 {
        "3"
    } else if byte == 0x34 {
        "4"
    } else if byte == 0x35 {
        "5"
    } else if byte == 0x36 {
        "6"
    } else if byte == 0x37 {
        "7"
    } else if byte == 0x38 {
        "8"
    } else if byte == 0x39 {
        "9"
    } else if byte == 0x2e {
        "."
    } else if byte == 0x2b {
        "+"
    } else if byte == 0x2d {
        "-"
    } else {
        "e"
    };
    assert(text@ =~= seq![number_char(byte)]);
    text
}

/// The number that a sequence of decimal digits denotes.
pub open spec fn decimal(digits: Seq<u8>) -> int
    decreases digits.len(),
{
    if digits.len() == 0 {
        0
    } else {
        decimal(digits.drop_last()) * 10 + (digits.last() - 0x30)
    }
}

/// The number that a prefix of digits denotes is not larger than the number
/// that a longer prefix denotes.
pub proof fn lemma_decimal_grows(digits: Seq<u8>, count: int)
    requires
        0 <= count <= digits.len(),
        all_in(digits, 0, digits.len() as int, |b: u8| is_digit(b)),
    ensures
        0 <= decimal(digits.take(count)) <= decimal(digits),
    decreases digits.len() - count,
{
    lemma_decimal_nonnegative(digits.take(count));
    if count < digits.len() {
        lemma_decimal_grows(digits, count + 1);
        let longer = digits.take(count + 1);
        assert(longer.drop_last() =~= digits.take(count));
        assert(is_digit(digits[count]));
        assert(longer.last() == digits[count]);
    } else {
        assert(digits.take(count) =~= digits);
    }
}

/// A sequence of digits denotes no negative number.
pub proof fn lemma_decimal_nonnegative(digits: Seq<u8>)
    requires
        all_in(digits, 0, digits.len() as int, |b: u8| is_digit(b)),
    ensures
        decimal(digits) >= 0,
    decreases digits.len(),
{
    if digits.len() > 0 {
        lemma_decimal_nonnegative(digits.drop_last());
        assert(is_digit(digits[digits.len() - 1]));
    }
}

/// Every float literal that could stand in the text, with its position and
/// its text, in the order of their positions. The host converts each to its
/// bits and hands them to the parser.
pub fn float_literals(input: &str) -> (literals: Vec<FloatLiteral>)
    ensures
        forall|i: int|
            0 <= i < literals@.len() ==> is_float_at(
                input.spec_bytes(),
                (#[trigger] literals@[i]).at as int,
            ),
        forall|i: int, j: int|
            0 <= i < j < literals@.len() ==> (#[trigger] literals@[i]).at < (
            #[trigger] literals@[j]).at,
        forall|at: int|
            is_float_at(input.spec_bytes(), at) ==> exists|i: int|
                0 <= i < literals@.len() && (#[trigger] literals@[i]).at == at,
        forall|i: int|
            0 <= i < literals@.len() ==> (#[trigger] literals@[i]).text@ == number_text(
                input.spec_bytes(),
                literals@[i].at as int,
                exponent_end_of(
                    input.spec_bytes(),
                    fraction_end_of(
                        input.spec_bytes(),
                        run_end(input.spec_bytes(), literals@[i].at as int, |b: u8| is_digit(b)),
                    ),
                ),
            ),
{
    let none: Vec<FloatBits> = Vec::new();
    let src = Source::new(input, &none, true);
    let mut literals: Vec<FloatLiteral> = Vec::new();
    let mut at: usize = 0;
    let ghost bytes = input.spec_bytes();
    while at < src.len()
        invariant
            src.wf(),
            src@ == bytes,
            bytes == input.spec_bytes(),
            at <= bytes.len(),
            forall|i: int|
                0 <= i < literals@.len() ==> (#[trigger] literals@[i]).at < at && is_float_at(
                    bytes,
                    literals@[i].at as int,
                ),
            forall|i: int, j: int|
                0 <= i < j < literals@.len() ==> (#[trigger] literals@[i]).at < (
                #[trigger] literals@[j]).at,
            forall|p: int|
                0 <= p < at && is_float_at(bytes, p) ==> exists|i: int|
                    0 <= i < literals@.len() && (#[trigger] literals@[i]).at == p,
            forall|i: int|
                0 <= i < literals@.len() ==> (#[trigger] literals@[i]).text@ == number_text(
                    bytes,
                    literals@[i].at as int,
                    exponent_end_of(
                        bytes,
                        fraction_end_of(
                            bytes,
                            run_end(bytes, literals@[i].at as int, |b: u8| is_digit(b)),
                        ),
                    ),
                ),
        decreases bytes.len() - at,
    {
        let ghost before = literals@;
        match src.number_at(at) {
            Some(span) => {
                if span.digits_end < span.end {
                    let text = src.float_text(span);
                    literals.push(FloatLiteral { at, text });
                    assert(literals@[before.len() as int].at == at);
                }
            },
            None => {},
        }
        assert forall|p: int| 0 <= p < at + 1 && is_float_at(bytes, p) implies exists|i: int|
            0 <= i < literals@.len() && (#[trigger] literals@[i]).at == p by {
            if p < at {
                let i = choose|i: int| 0 <= i < before.len() && (#[trigger] before[i]).at == p;
                assert(literals@[i].at == p);
            } else {
                assert(literals@[before.len() as int].at == at);
            }
        }
        at += 1;
    }
    literals
}

/// A text with the bits of its float literals, as the grammar sees it.
pub struct Text {
    /// The bytes of the text.
    pub bytes: Seq<u8>,
    /// The bits of the text's float literals, as the host has handed them
    /// over.
    pub table: Seq<FloatBits>,
    /// Whether a float literal that the table lacks is read as zero instead
    /// of being refused.
    pub lenient: bool,
}

/// The position behind what was found, if something was.
pub open spec fn at_end(found: Option<usize>) -> Option<int> {
    match found {
        Some(end) => Some(end as int),
        None => None,
    }
}

/// The position behind what was read, if something was.
pub open spec fn end_of<T>(found: Option<(T, usize)>) -> Option<int> {
    match found {
        Some((_, end)) => Some(end as int),
        None => None,
    }
}

/// Where a symbol ends that stands at `pos` behind white space, if it stands
/// there.
#[verifier::opaque]
pub open spec fn symbol_end(bytes: Seq<u8>, pos: int, word: &str) -> Option<int> {
    let start = run_end(bytes, pos, |b: u8| is_space(b));
    if word.spec_bytes().len() > 0 && stands_at(bytes, start, word.spec_bytes()) {
        Some(start + word.spec_bytes().len())
    } else {
        None
    }
}

/// Where a symbol ends that stands at `pos` behind white space and is not
/// followed by the byte `next`.
#[verifier::opaque]
pub open spec fn symbol_not_before_end(bytes: Seq<u8>, pos: int, word: &str, next: u8) -> Option<
    int,
> {
    match symbol_end(bytes, pos, word) {
        Some(end) => if end == bytes.len() || bytes[end] != next {
            Some(end)
        } else {
            None
        },
        None => None,
    }
}

/// Where a word ends that stands at `pos` behind white space and is not
/// followed by a byte that could continue a name.
#[verifier::opaque]
pub open spec fn keyword_end(bytes: Seq<u8>, pos: int, word: &str) -> Option<int> {
    match symbol_end(bytes, pos, word) {
        Some(end) => if end == bytes.len() || !is_ident_char(bytes[end]) {
            Some(end)
        } else {
            None
        },
        None => None,
    }
}

/// Where an identifier ends that stands at `pos` behind white space: a name
/// that is no reserved word.
#[verifier::opaque]
pub open spec fn ident_end(bytes: Seq<u8>, pos: int) -> Option<int> {
    let from = run_end(bytes, pos, |b: u8| is_space(b));
    let to = run_end(bytes, from, |b: u8| is_ident_char(b));
    if from < bytes.len() && is_ident_start(bytes[from]) && !is_reserved(bytes.subrange(from, to)) {
        Some(to)
    } else {
        None
    }
}

/// Where an atom ends that stands at `pos` behind white space: a colon and
/// the name directly behind it.
#[verifier::opaque]
pub open spec fn atom_end(bytes: Seq<u8>, pos: int) -> Option<int> {
    let colon = run_end(bytes, pos, |b: u8| is_space(b));
    if colon + 1 < bytes.len() && bytes[colon] == 0x3a && is_ident_start(bytes[colon + 1]) {
        Some(run_end(bytes, colon + 1, |b: u8| is_ident_char(b)))
    } else {
        None
    }
}

/// Where a string literal ends that stands at `pos` behind white space:
/// behind the quote that closes it.
#[verifier::opaque]
pub open spec fn string_end(bytes: Seq<u8>, pos: int) -> Option<int> {
    let quote = run_end(bytes, pos, |b: u8| is_space(b));
    if quote < bytes.len() && bytes[quote] == 0x22 && string_close(bytes, quote + 1) < bytes.len() {
        Some(string_close(bytes, quote + 1) + 1)
    } else {
        None
    }
}

/// Whether the bits of the float literal at a position can be had: the table
/// holds them, or the text is read leniently.
pub open spec fn has_bits(text: Text, at: int) -> bool {
    text.lenient || exists|i: int| 0 <= i < text.table.len() && (#[trigger] text.table[i]).at == at
}

/// Where a number literal ends that stands at `pos` behind white space, if it
/// can be read: an integer that fits 64 bits, or a float whose bits can be
/// had.
#[verifier::opaque]
pub open spec fn number_end(text: Text, pos: int) -> Option<int> {
    let bytes = text.bytes;
    let start = run_end(bytes, pos, |b: u8| is_space(b));
    let digits_end = run_end(bytes, start, |b: u8| is_digit(b));
    let end = exponent_end_of(bytes, fraction_end_of(bytes, digits_end));
    if start < bytes.len() && is_digit(bytes[start]) {
        if digits_end == end {
            if decimal(bytes.subrange(start, digits_end)) <= i64::MAX {
                Some(end)
            } else {
                None
            }
        } else if has_bits(text, start) {
            Some(end)
        } else {
            None
        }
    } else {
        None
    }
}

} // verus!
