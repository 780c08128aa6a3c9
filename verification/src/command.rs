//! The control protocol's command lines: words, ports and symbol lists.

use vstd::prelude::*;
use vstd::std_specs::iter::IteratorSpec;
use crate::error::SessionError;
use crate::symbols::symbols_of;

verus! {

/// Whether `c` separates words: the characters with the Unicode property
/// `White_Space`.
pub open spec fn is_space(c: char) -> bool {
    let code = c as u32;
    ||| 0x09 <= code <= 0x0d
    ||| code == 0x20
    ||| code == 0x85
    ||| code == 0xa0
    ||| code == 0x1680
    ||| 0x2000 <= code <= 0x200a
    ||| code == 0x2028
    ||| code == 0x2029
    ||| code == 0x202f
    ||| code == 0x205f
    ||| code == 0x3000
}

/// The words of `text`: its maximal runs of characters that are not
/// spaces, from left to right.
///
/// Read one character at a time: a space adds nothing; a character after a
/// space, or the first of the text, starts a word; any other extends the
/// last word.
pub open spec fn words(text: Seq<char>) -> Seq<Seq<char>>
    decreases text.len(),
{
    if text.len() == 0 {
        Seq::empty()
    } else {
        let before = words(text.drop_last());
        if is_space(text.last()) {
            before
        } else if text.len() >= 2 && !is_space(text[text.len() - 2]) && before.len() > 0 {
            before.update(before.len() - 1, before.last().push(text.last()))
        } else {
            before.push(seq![text.last()])
        }
    }
}

/// The pieces of `text` between occurrences of `sep`, from left to right.
/// There is always at least one piece; a piece may be empty.
///
/// Read one character at a time: `sep` starts a new, empty piece; any
/// other character extends the last piece.
pub open spec fn fields(text: Seq<char>, sep: char) -> Seq<Seq<char>>
    decreases text.len(),
{
    if text.len() == 0 {
        seq![Seq::empty()]
    } else {
        let before = fields(text.drop_last(), sep);
        if text.last() == sep {
            before.push(Seq::empty())
        } else {
            before.update(before.len() - 1, before.last().push(text.last()))
        }
    }
}

/// `pieces` put together with `sep` between them.
pub open spec fn joined(pieces: Seq<Seq<char>>, sep: char) -> Seq<char>
    decreases pieces.len(),
{
    if pieces.len() == 0 {
        Seq::empty()
    } else if pieces.len() == 1 {
        pieces[0]
    } else {
        joined(pieces.drop_last(), sep).push(sep) + pieces.last()
    }
}

/// Whether `sep` does not occur in `text`.
pub open spec fn is_free_of(text: Seq<char>, sep: char) -> bool {
    forall|i: int| 0 <= i < text.len() ==> #[trigger] text[i] != sep
}

/// Whether `c` is one of the digits `0` to `9`.
pub open spec fn is_digit(c: char) -> bool {
    0x30 <= c as u32 <= 0x39
}

/// Whether `text` holds digits only.
pub open spec fn all_digits(text: Seq<char>) -> bool {
    forall|i: int| 0 <= i < text.len() ==> is_digit(#[trigger] text[i])
}

/// The number that the digits of `text` write in base ten.
pub open spec fn decimal_value(text: Seq<char>) -> int
    decreases text.len(),
{
    if text.len() == 0 {
        0
    } else {
        10 * decimal_value(text.drop_last()) + (text.last() as u32 - 0x30)
    }
}

/// The 16-bit number that `digits` writes, if it writes one: one or more
/// digits whose value fits.
pub open spec fn number_of(digits: Seq<char>) -> Option<u16> {
    if digits.len() > 0 && all_digits(digits) && decimal_value(digits) <= u16::MAX {
        Some(decimal_value(digits) as u16)
    } else {
        None
    }
}

/// The port that `word` writes, if it writes one: an optional `+`, then a
/// number as [`number_of`] reads it.
pub open spec fn port_of(word: Seq<char>) -> Option<u16> {
    if word.len() > 0 && word[0] == '+' {
        number_of(word.skip(1))
    } else {
        number_of(word)
    }
}

/// A command of the control protocol.
#[derive(Debug)]
pub enum Command {
    /// `STREAM <port> [<symbol>,<symbol>,...]`: subscribe `port`, to the
    /// listed symbols or, with no list, to every known instrument.
    Stream { port: u16, watch_list: Option<Vec<String>> },
    /// `EXIT`: leave.
    Exit,
}

/// What a command means.
pub enum CommandView {
    Stream { port: u16, watch_list: Option<Seq<Seq<char>>> },
    Exit,
}

impl View for Command {
    type V = CommandView;

    open spec fn view(&self) -> CommandView {
        match self {
            Command::Stream { port, watch_list } => CommandView::Stream {
                port: *port,
                watch_list: match watch_list {
                    Some(list) => Some(symbols_of(list@)),
                    None => None,
                },
            },
            Command::Exit => CommandView::Exit,
        }
    }
}

/// What a line of the control channel asks for.
///
/// A line without words asks for nothing. Otherwise its first word names
/// the command. After `STREAM` the second word is the port and the third,
/// if there is one, the symbols, separated by commas. Words after those are
/// not looked at.
pub open spec fn parse(line: Seq<char>) -> Result<Option<CommandView>, SessionError> {
    let w = words(line);
    if w.len() == 0 {
        Ok(None)
    } else if w[0] == "STREAM"@ {
        if w.len() < 2 {
            Err(SessionError::InvalidPort)
        } else {
            match port_of(w[1]) {
                None => Err(SessionError::InvalidPort),
                Some(port) => Ok(
                    Some(
                        CommandView::Stream {
                            port,
                            watch_list: if w.len() >= 3 {
                                Some(fields(w[2], ','))
                            } else {
                                None
                            },
                        },
                    ),
                ),
            }
        }
    } else if w[0] == "EXIT"@ {
        Ok(Some(CommandView::Exit))
    } else {
        Err(SessionError::InvalidCommand)
    }
}

/// A stretch of a text, from `start` up to `end`.
#[derive(Clone, Copy, Debug)]
pub struct Span {
    pub start: usize,
    pub end: usize,
}

/// The stretches of `text` that `spans` name.
pub open spec fn spanned(text: Seq<char>, spans: Seq<Span>) -> Seq<Seq<char>> {
    Seq::new(spans.len(), |k: int| text.subrange(spans[k].start as int, spans[k].end as int))
}

/// Whether each of `spans` lies within the first `len` characters.
pub open spec fn spans_within(spans: Seq<Span>, len: int) -> bool {
    forall|k: int| 0 <= k < spans.len() ==> (#[trigger] spans[k]).start <= spans[k].end <= len
}

/// Computes [`is_space`].
pub fn is_whitespace(c: char) -> (space: bool)
    ensures
        space == is_space(c),
{
    let code: u32 = c as u32;
    (0x09 <= code && code <= 0x0d) || code == 0x20 || code == 0x85 || code == 0xa0 || code
        == 0x1680 || (0x2000 <= code && code <= 0x200a) || code == 0x2028 || code == 0x2029
        || code == 0x202f || code == 0x205f || code == 0x3000
}

/// The characters of `text`, one by one.
pub fn chars_of(text: &str) -> (chars: Vec<char>)
    ensures
        chars@ == text@,
{
    let mut chars: Vec<char> = Vec::new();
    for c in it: text.chars()
        invariant
            it.seq() == text@,
            chars@ == text@.take(it.index()),
    {
        chars.push(c);
        assert(chars@ =~= text@.take(it.index() + 1));
    }
    assert(chars@ =~= text@);
    chars
}

/// Where the words of `text` stand.
pub fn word_spans(text: &Vec<char>) -> (spans: Vec<Span>)
    ensures
        spans_within(spans@, text.len() as int),
        spanned(text@, spans@) == words(text@),
{
    let mut spans: Vec<Span> = Vec::new();
    let mut in_word: bool = false;
    let mut i: usize = 0;
    assert(spanned(text@.take(0), spans@) =~= words(text@.take(0)));
    while i < text.len()
        invariant
            i <= text.len(),
            spans_within(spans@, i as int),
            spanned(text@.take(i as int), spans@) == words(text@.take(i as int)),
            in_word == (i > 0 && !is_space(text@[i - 1])),
            in_word ==> spans.len() > 0 && spans@.last().end == i,
        decreases text.len() - i,
    {
        let ghost seen = text@.take(i as int);
        let ghost next = text@.take(i + 1);
        let ghost before = spans@;
        let c = text[i];
        proof {
            assert(next.drop_last() =~= seen);
            assert(next.last() == c);
            assert(before.len() == words(seen).len());
            assert forall|k: int| 0 <= k < before.len() implies #[trigger] spanned(
                next,
                before,
            )[k] == spanned(seen, before)[k] by {
                assert(next.subrange(before[k].start as int, before[k].end as int)
                    =~= seen.subrange(before[k].start as int, before[k].end as int));
            }
            assert(spanned(next, before) =~= words(seen));
            assert(next.len() == i + 1);
            if i > 0 {
                assert(next[next.len() - 2] == text@[i - 1]);
            }
        }
        if is_whitespace(c) {
            in_word = false;
            assert(spanned(next, spans@) =~= words(next));
        } else if in_word {
            let last = spans.len() - 1;
            let start = spans[last].start;
            spans.set(last, Span { start, end: i + 1 });
            proof {
                assert(next.subrange(start as int, i + 1) =~= seen.subrange(
                    start as int,
                    i as int,
                ).push(c));
                assert(spanned(seen, before)[last as int] == words(seen).last());
                assert(words(next) == words(seen).update(last as int, words(seen).last().push(c)));
                assert forall|k: int| 0 <= k < spans.len() implies #[trigger] spanned(
                    next,
                    spans@,
                )[k] == words(next)[k] by {
                    if k < last {
                        assert(spans@[k] == before[k]);
                        assert(spanned(next, before)[k] == words(seen)[k]);
                    }
                }
                assert(spanned(next, spans@) =~= words(next));
            }
        } else {
            spans.push(Span { start: i, end: i + 1 });
            in_word = true;
            proof {
                assert(next.subrange(i as int, i + 1) =~= seq![c]);
                assert(words(next) == words(seen).push(seq![c]));
                assert forall|k: int| 0 <= k < spans.len() implies #[trigger] spanned(
                    next,
                    spans@,
                )[k] == words(next)[k] by {
                    if k < before.len() {
                        assert(spans@[k] == before[k]);
                        assert(spanned(next, before)[k] == words(seen)[k]);
                    }
                }
                assert(spanned(next, spans@) =~= words(next));
            }
        }
        i += 1;
    }
    assert(text@.take(text.len() as int) =~= text@);
    spans
}

/// There is always a piece, even of an empty text.
pub proof fn lemma_fields_nonempty(text: Seq<char>, sep: char)
    ensures
        fields(text, sep).len() >= 1,
    decreases text.len(),
{
    if text.len() > 0 {
        lemma_fields_nonempty(text.drop_last(), sep);
    }
}

/// Reading more digits never makes the number smaller.
pub proof fn lemma_decimal_value_grows(text: Seq<char>, k: int)
    requires
        all_digits(text),
        0 <= k <= text.len(),
    ensures
        0 <= decimal_value(text.take(k)) <= decimal_value(text),
    decreases text.len() - k,
{
    if k == text.len() {
        assert(text.take(k) =~= text);
        lemma_decimal_value_nonnegative(text);
    } else {
        lemma_decimal_value_grows(text, k + 1);
        assert(text.take(k + 1).drop_last() =~= text.take(k));
        assert(is_digit(text[k]));
        lemma_decimal_value_nonnegative(text.take(k));
    }
}

/// A number written in digits is not negative.
pub proof fn lemma_decimal_value_nonnegative(text: Seq<char>)
    requires
        all_digits(text),
    ensures
        0 <= decimal_value(text),
    decreases text.len(),
{
    if text.len() > 0 {
        assert(is_digit(text.last()));
        assert forall|i: int| 0 <= i < text.drop_last().len() implies is_digit(
            #[trigger] text.drop_last()[i],
        ) by {
            assert(text.drop_last()[i] == text[i]);
        }
        lemma_decimal_value_nonnegative(text.drop_last());
    }
}

/// Where the pieces of `text[from..to]` between occurrences of `sep` stand
/// in `text`.
pub fn field_spans(text: &Vec<char>, from: usize, to: usize, sep: char) -> (spans: Vec<Span>)
    requires
        from <= to <= text.len(),
    ensures
        spans_within(spans@, to as int),
        spanned(text@, spans@) == fields(text@.subrange(from as int, to as int), sep),
{
    let mut spans: Vec<Span> = Vec::new();
    spans.push(Span { start: from, end: from });
    let mut i: usize = from;
    proof {
        assert(text@.subrange(from as int, from as int) =~= Seq::<char>::empty());
        assert(spanned(text@, spans@) =~= fields(text@.subrange(from as int, from as int), sep));
    }
    while i < to
        invariant
            from <= i <= to <= text.len(),
            spans_within(spans@, i as int),
            spans.len() > 0,
            spans@.last().end == i,
            spanned(text@, spans@) == fields(text@.subrange(from as int, i as int), sep),
        decreases to - i,
    {
        let ghost seen = text@.subrange(from as int, i as int);
        let ghost next = text@.subrange(from as int, i + 1);
        let ghost before = spans@;
        let c = text[i];
        proof {
            assert(next.drop_last() =~= seen);
            assert(next.last() == c);
            lemma_fields_nonempty(seen, sep);
        }
        let last = spans.len() - 1;
        if c == sep {
            spans.push(Span { start: i + 1, end: i + 1 });
            proof {
                assert(text@.subrange(i + 1, i + 1) =~= Seq::<char>::empty());
                assert forall|k: int| 0 <= k < spans.len() implies #[trigger] spanned(
                    text@,
                    spans@,
                )[k] == fields(next, sep)[k] by {
                    if k <= last {
                        assert(spans@[k] == before[k]);
                        assert(spanned(text@, before)[k] == fields(seen, sep)[k]);
                    }
                }
                assert(spanned(text@, spans@) =~= fields(next, sep));
            }
        } else {
            let start = spans[last].start;
            spans.set(last, Span { start, end: i + 1 });
            proof {
                assert(text@.subrange(start as int, i + 1) =~= text@.subrange(
                    start as int,
                    i as int,
                ).push(c));
                assert(spanned(text@, before)[last as int] == fields(seen, sep).last());
                assert forall|k: int| 0 <= k < spans.len() implies #[trigger] spanned(
                    text@,
                    spans@,
                )[k] == fields(next, sep)[k] by {
                    if k < last {
                        assert(spans@[k] == before[k]);
                        assert(spanned(text@, before)[k] == fields(seen, sep)[k]);
                    }
                }
                assert(spanned(text@, spans@) =~= fields(next, sep));
            }
        }
        i += 1;
    }
    spans
}

/// Reads `text[from..to]` as a number: see [`number_of`].
pub fn parse_number(text: &Vec<char>, from: usize, to: usize) -> (number: Option<u16>)
    requires
        from <= to <= text.len(),
    ensures
        number == number_of(text@.subrange(from as int, to as int)),
{
    let ghost digits = text@.subrange(from as int, to as int);
    if from == to {
        return None;
    }
    let mut value: u32 = 0;
    let mut i: usize = from;
    assert(digits.take(0) =~= Seq::<char>::empty());
    while i < to
        invariant
            from <= i <= to <= text.len(),
            digits == text@.subrange(from as int, to as int),
            all_digits(digits.take(i - from)),
            value == decimal_value(digits.take(i - from)),
            value <= u16::MAX,
        decreases to - i,
    {
        let c = text[i];
        let code: u32 = c as u32;
        let ghost seen = digits.take(i - from);
        let ghost next = digits.take(i + 1 - from);
        proof {
            assert(next.drop_last() =~= seen);
            assert(next.last() == c);
            assert(digits[i - from] == c);
        }
        if code < 0x30 || code > 0x39 {
            assert(!is_digit(digits[i - from]));
            return None;
        }
        let larger: u32 = value * 10 + (code - 0x30);
        proof {
            assert forall|k: int| 0 <= k < next.len() implies is_digit(#[trigger] next[k]) by {
                if k < seen.len() {
                    assert(next[k] == seen[k]);
                }
            }
        }
        if larger > 0xffff {
            proof {
                if all_digits(digits) {
                    lemma_decimal_value_grows(digits, i + 1 - from);
                }
            }
            return None;
        }
        value = larger;
        i += 1;
    }
    assert(digits.take(to - from) =~= digits);
    Some(value as u16)
}

/// Reads `text[from..to]` as a port: see [`port_of`].
pub fn parse_port(text: &Vec<char>, from: usize, to: usize) -> (port: Option<u16>)
    requires
        from <= to <= text.len(),
    ensures
        port == port_of(text@.subrange(from as int, to as int)),
{
    let ghost word = text@.subrange(from as int, to as int);
    if from < to && text[from] == '+' {
        assert(text@.subrange(from + 1, to as int) =~= word.skip(1));
        parse_number(text, from + 1, to)
    } else {
        parse_number(text, from, to)
    }
}

/// The stretch `span` of `line`, as a string of its own.
pub fn text_of(line: &str, span: Span) -> (text: String)
    requires
        span.start <= span.end <= line@.len(),
    ensures
        text@ == line@.subrange(span.start as int, span.end as int),
{
    line.substring_char(span.start, span.end).to_owned()
}

/// The stretches `spans` of `line`, each as a string of its own.
pub fn texts_of(line: &str, spans: &Vec<Span>) -> (texts: Vec<String>)
    requires
        spans_within(spans@, line@.len() as int),
    ensures
        symbols_of(texts@) == spanned(line@, spans@),
{
    let mut texts: Vec<String> = Vec::new();
    let mut k: usize = 0;
    while k < spans.len()
        invariant
            k <= spans.len(),
            spans_within(spans@, line@.len() as int),
            texts.len() == k,
            forall|j: int|
                0 <= j < k ==> (#[trigger] texts[j])@ == line@.subrange(
                    spans[j].start as int,
                    spans[j].end as int,
                ),
        decreases spans.len() - k,
    {
        let span = spans[k];
        texts.push(text_of(line, span));
        k += 1;
    }
    assert(symbols_of(texts@) =~= spanned(line@, spans@));
    texts
}

/// Reads one line of the control channel: see [`parse`].
pub fn parse_line(line: &str) -> (parsed: Result<Option<Command>, SessionError>)
    ensures
        match parse(line@) {
            Ok(Some(command)) => parsed matches Ok(Some(found)) && found@ == command,
            Ok(None) => parsed matches Ok(None),
            Err(error) => parsed matches Err(found) && found == error,
        },
{
    let chars = chars_of(line);
    let spans = word_spans(&chars);
    if spans.len() == 0 {
        return Ok(None);
    }
    let ghost w = words(line@);
    assert(w[0] == spanned(line@, spans@)[0]);
    let head = text_of(line, spans[0]);
    if head == "STREAM".to_owned() {
        if spans.len() < 2 {
            return Err(SessionError::InvalidPort);
        }
        assert(w[1] == spanned(line@, spans@)[1]);
        match parse_port(&chars, spans[1].start, spans[1].end) {
            None => Err(SessionError::InvalidPort),
            Some(port) => {
                if spans.len() >= 3 {
                    assert(w[2] == spanned(line@, spans@)[2]);
                    let pieces = field_spans(&chars, spans[2].start, spans[2].end, ',');
                    let watch_list = texts_of(line, &pieces);
                    Ok(Some(Command::Stream { port, watch_list: Some(watch_list) }))
                } else {
                    Ok(Some(Command::Stream { port, watch_list: None }))
                }
            },
        }
    } else if head == "EXIT".to_owned() {
        Ok(Some(Command::Exit))
    } else {
        Err(SessionError::InvalidCommand)
    }
}

/// Whether `text` could be a word: it is not empty and holds no space.
pub open spec fn is_word(text: Seq<char>) -> bool {
    text.len() > 0 && forall|i: int| 0 <= i < text.len() ==> !is_space(#[trigger] text[i])
}

/// Every word of a text is a word: not empty, and without a space.
pub proof fn law_words_are_words(text: Seq<char>)
    ensures
        forall|k: int| 0 <= k < words(text).len() ==> is_word(#[trigger] words(text)[k]),
    decreases text.len(),
{
    if text.len() > 0 {
        let before = words(text.drop_last());
        let c = text.last();
        law_words_are_words(text.drop_last());
        assert forall|k: int| 0 <= k < words(text).len() implies is_word(
            #[trigger] words(text)[k],
        ) by {
            if is_space(c) {
            } else if text.len() >= 2 && !is_space(text[text.len() - 2]) && before.len() > 0 {
                if k == before.len() - 1 {
                    let grown = before.last().push(c);
                    assert(is_word(before[k]));
                    assert forall|i: int| 0 <= i < grown.len() implies !is_space(
                        #[trigger] grown[i],
                    ) by {
                        if i < before.last().len() {
                            assert(grown[i] == before.last()[i]);
                        }
                    }
                } else {
                    assert(is_word(before[k]));
                }
            } else {
                if k < before.len() {
                    assert(is_word(before[k]));
                }
            }
        }
    }
}

/// A text has no words exactly when it is blank: empty, or spaces only.
pub proof fn law_blank_means_no_words(text: Seq<char>)
    ensures
        words(text).len() == 0 <==> forall|i: int| 0 <= i < text.len() ==> is_space(
            #[trigger] text[i],
        ),
    decreases text.len(),
{
    if text.len() > 0 {
        let front = text.drop_last();
        law_blank_means_no_words(front);
        if forall|i: int| 0 <= i < text.len() ==> is_space(#[trigger] text[i]) {
            assert forall|i: int| 0 <= i < front.len() implies is_space(#[trigger] front[i]) by {
                assert(front[i] == text[i]);
            }
            assert(is_space(text[text.len() - 1]));
        }
        if words(text).len() == 0 {
            assert(is_space(text.last()));
            assert forall|i: int| 0 <= i < text.len() implies is_space(#[trigger] text[i]) by {
                if i < front.len() {
                    assert(front[i] == text[i]);
                }
            }
        }
    }
}

/// A space at the end of a text adds no word.
pub proof fn law_space_adds_no_word(text: Seq<char>, space: char)
    requires
        is_space(space),
    ensures
        words(text.push(space)) == words(text),
{
    assert(text.push(space).drop_last() =~= text);
}

/// A word put after a text that is empty or ends in a space is the text's
/// next word.
pub proof fn law_word_after_space(text: Seq<char>, word: Seq<char>)
    requires
        is_word(word),
        text.len() == 0 || is_space(text.last()),
    ensures
        words(text + word) == words(text).push(word),
    decreases word.len(),
{
    let whole = text + word;
    let c = word.last();
    assert(whole.drop_last() =~= text + word.drop_last());
    assert(whole.last() == c);
    assert(!is_space(c));
    if word.len() == 1 {
        assert(text + word.drop_last() =~= text);
        assert(word =~= seq![c]);
        if text.len() > 0 {
            assert(whole[whole.len() - 2] == text.last());
        }
    } else {
        let front = word.drop_last();
        assert forall|i: int| 0 <= i < front.len() implies !is_space(#[trigger] front[i]) by {
            assert(front[i] == word[i]);
        }
        law_word_after_space(text, front);
        assert(whole[whole.len() - 2] == word[word.len() - 2]);
        assert(!is_space(word[word.len() - 2]));
        assert(words(text).push(front).update(words(text).len() as int, front.push(c))
            =~= words(text).push(word)) by {
            assert(front.push(c) =~= word);
        }
    }
}

/// A text without the separator is one piece.
pub proof fn law_plain_text_is_one_piece(text: Seq<char>, sep: char)
    requires
        is_free_of(text, sep),
    ensures
        fields(text, sep) == seq![text],
    decreases text.len(),
{
    if text.len() == 0 {
        assert(text =~= Seq::<char>::empty());
    } else {
        let front = text.drop_last();
        assert forall|i: int| 0 <= i < front.len() implies #[trigger] front[i] != sep by {
            assert(front[i] == text[i]);
        }
        law_plain_text_is_one_piece(front, sep);
        assert(text[text.len() - 1] != sep);
        assert(front.push(text.last()) =~= text);
        assert(seq![front].update(0, front.push(text.last())) =~= seq![text]);
    }
}

/// What follows a separator, up to the next one, is the next piece.
pub proof fn law_piece_after_separator(text: Seq<char>, piece: Seq<char>, sep: char)
    requires
        is_free_of(piece, sep),
    ensures
        fields(text.push(sep) + piece, sep) == fields(text, sep).push(piece),
    decreases piece.len(),
{
    let whole = text.push(sep) + piece;
    if piece.len() == 0 {
        assert(whole =~= text.push(sep));
        assert(whole.drop_last() =~= text);
        assert(piece =~= Seq::<char>::empty());
    } else {
        let front = piece.drop_last();
        assert forall|i: int| 0 <= i < front.len() implies #[trigger] front[i] != sep by {
            assert(front[i] == piece[i]);
        }
        law_piece_after_separator(text, front, sep);
        assert(whole.drop_last() =~= text.push(sep) + front);
        assert(whole.last() == piece[piece.len() - 1]);
        assert(front.push(piece.last()) =~= piece);
        assert(fields(text, sep).push(front).update(fields(text, sep).len() as int, piece)
            =~= fields(text, sep).push(piece));
    }
}

/// No piece holds the separator.
pub proof fn law_pieces_hold_no_separator(text: Seq<char>, sep: char)
    ensures
        forall|k: int|
            0 <= k < fields(text, sep).len() ==> is_free_of(#[trigger] fields(text, sep)[k], sep),
    decreases text.len(),
{
    if text.len() > 0 {
        let before = fields(text.drop_last(), sep);
        let c = text.last();
        law_pieces_hold_no_separator(text.drop_last(), sep);
        lemma_fields_nonempty(text.drop_last(), sep);
        assert forall|k: int| 0 <= k < fields(text, sep).len() implies is_free_of(
            #[trigger] fields(text, sep)[k],
            sep,
        ) by {
            if c == sep {
                if k < before.len() {
                    assert(is_free_of(before[k], sep));
                }
            } else if k == before.len() - 1 {
                let grown = before.last().push(c);
                assert(is_free_of(before[k], sep));
                assert forall|i: int| 0 <= i < grown.len() implies #[trigger] grown[i] != sep by {
                    if i < before.last().len() {
                        assert(grown[i] == before.last()[i]);
                    }
                }
            } else {
                assert(is_free_of(before[k], sep));
            }
        }
    }
}

/// Splitting loses nothing: the pieces of a text, put together again, are
/// the text.
pub proof fn law_joined_pieces_are_the_text(text: Seq<char>, sep: char)
    ensures
        joined(fields(text, sep), sep) == text,
    decreases text.len(),
{
    if text.len() == 0 {
        assert(text =~= Seq::<char>::empty());
    } else {
        let front = text.drop_last();
        let before = fields(front, sep);
        let c = text.last();
        let pieces = fields(text, sep);
        law_joined_pieces_are_the_text(front, sep);
        lemma_fields_nonempty(front, sep);
        assert(front.push(c) =~= text);
        if c == sep {
            assert(pieces.drop_last() =~= before);
            assert(joined(before, sep).push(sep) + Seq::<char>::empty() =~= front.push(sep));
        } else if before.len() == 1 {
            assert(pieces[0] == before[0].push(c));
        } else {
            assert(pieces.drop_last() =~= before.drop_last());
            assert(pieces.last() == before.last().push(c));
            assert(joined(before.drop_last(), sep).push(sep) + before.last().push(c) =~= (joined(
                before.drop_last(),
                sep,
            ).push(sep) + before.last()).push(c));
        }
    }
}

/// Joining loses nothing either: pieces without the separator, put
/// together and split again, are the pieces.
pub proof fn law_pieces_of_joined_are_the_pieces(pieces: Seq<Seq<char>>, sep: char)
    requires
        pieces.len() >= 1,
        forall|k: int| 0 <= k < pieces.len() ==> is_free_of(#[trigger] pieces[k], sep),
    ensures
        fields(joined(pieces, sep), sep) == pieces,
    decreases pieces.len(),
{
    if pieces.len() == 1 {
        law_plain_text_is_one_piece(pieces[0], sep);
        assert(seq![pieces[0]] =~= pieces);
    } else {
        let front = pieces.drop_last();
        assert forall|k: int| 0 <= k < front.len() implies is_free_of(#[trigger] front[k], sep) by {
            assert(front[k] == pieces[k]);
        }
        law_pieces_of_joined_are_the_pieces(front, sep);
        assert(is_free_of(pieces[pieces.len() - 1], sep));
        law_piece_after_separator(joined(front, sep), pieces.last(), sep);
        assert(front.push(pieces.last()) =~= pieces);
    }
}

} // verus!
