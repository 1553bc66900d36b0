//! The `name { key = value ; }` syntax of configuration files.
//!
//! Parsing works on the UTF-8 bytes of the text. Every token boundary falls on
//! a character boundary, so the tokens are texts again.
use crate::ordmap::OrdMap;
use crate::text::lossy_text;
use vstd::prelude::*;
use vstd::slice::slice_subrange;
use vstd::utf8::*;

verus! {

/// Where and why a text is not a configuration.
pub struct SyntaxView {
    pub offset: int,
    pub message: Seq<char>,
}

/// The settings of one block.
pub type Settings = Map<Seq<char>, Seq<char>>;

/// ASCII white space: space, tab, line feed, form feed and carriage return.
pub open spec fn is_space(byte: u8) -> bool {
    byte == 0x20 || byte == 0x09 || byte == 0x0a || byte == 0x0c || byte == 0x0d
}

/// The bytes of names: ASCII letters and digits, and `_`, `.`, `-` and `:`.
pub open spec fn is_name(byte: u8) -> bool {
    ||| 0x30 <= byte <= 0x39
    ||| 0x41 <= byte <= 0x5a
    ||| 0x61 <= byte <= 0x7a
    ||| byte == 0x5f
    ||| byte == 0x2e
    ||| byte == 0x2d
    ||| byte == 0x3a
}

/// The bytes of values without quotes.
pub open spec fn is_bare(byte: u8) -> bool {
    !is_space(byte) && byte != 0x3b
}

/// Where the run of bytes of a class ends that begins at `pos`.
pub open spec fn run_end(input: Seq<u8>, pos: int, class: spec_fn(u8) -> bool) -> int
    decreases input.len() - pos,
{
    if 0 <= pos < input.len() && class(input[pos]) {
        run_end(input, pos + 1, class)
    } else {
        pos
    }
}

/// Where the white space ends that begins at `pos`.
pub open spec fn space_end(input: Seq<u8>, pos: int) -> int {
    run_end(input, pos, |byte: u8| is_space(byte))
}

/// Where the line ends that `pos` is in.
pub open spec fn line_end(input: Seq<u8>, pos: int) -> int {
    run_end(input, pos, |byte: u8| byte != 0x0a)
}

/// Where the name ends that begins at `pos`.
pub open spec fn name_end(input: Seq<u8>, pos: int) -> int {
    run_end(input, pos, |byte: u8| is_name(byte))
}

/// Where the value without quotes ends that begins at `pos`.
pub open spec fn bare_end(input: Seq<u8>, pos: int) -> int {
    run_end(input, pos, |byte: u8| is_bare(byte))
}

/// A run ends inside the input, at the first byte that is not of its class.
pub proof fn lemma_run_end(input: Seq<u8>, pos: int, class: spec_fn(u8) -> bool)
    requires
        0 <= pos <= input.len(),
    ensures
        pos <= run_end(input, pos, class) <= input.len(),
        forall|i: int| pos <= i < run_end(input, pos, class) ==> class(#[trigger] input[i]),
        run_end(input, pos, class) < input.len() ==> !class(input[run_end(input, pos, class)]),
    decreases input.len() - pos,
{
    if pos < input.len() && class(input[pos]) {
        lemma_run_end(input, pos + 1, class);
    }
}

/// What ends at the first byte that is not of a class is a run of it.
proof fn lemma_run_is(input: Seq<u8>, pos: int, class: spec_fn(u8) -> bool, end: int)
    requires
        0 <= pos <= end <= input.len(),
        forall|i: int| pos <= i < end ==> class(#[trigger] input[i]),
        end < input.len() ==> !class(input[end]),
    ensures
        run_end(input, pos, class) == end,
    decreases end - pos,
{
    if pos < end {
        assert(class(input[pos]));
        lemma_run_is(input, pos + 1, class, end);
    }
}

/// The position behind the white space and the comments at `pos`. A comment
/// goes from `#` to the end of its line.
pub open spec fn skipped(input: Seq<u8>, pos: int) -> int
    decreases input.len() - pos,
{
    let at = space_end(input, pos);
    if 0 <= pos <= input.len() && at < input.len() && input[at] == 0x23 {
        proof {
            lemma_run_end(input, pos, |byte: u8| is_space(byte));
            lemma_run_end(input, at, |byte: u8| byte != 0x0a);
        }
        skipped(input, line_end(input, at))
    } else {
        at
    }
}

/// Skipping goes forward and stays inside the input.
pub proof fn lemma_skipped(input: Seq<u8>, pos: int)
    requires
        0 <= pos <= input.len(),
    ensures
        pos <= skipped(input, pos) <= input.len(),
    decreases input.len() - pos,
{
    lemma_run_end(input, pos, |byte: u8| is_space(byte));
    let at = space_end(input, pos);
    if at < input.len() && input[at] == 0x23 {
        lemma_run_end(input, at, |byte: u8| byte != 0x0a);
        lemma_skipped(input, line_end(input, at));
    }
}

/// The name at `pos`, and the position behind it.
pub open spec fn name_at(input: Seq<u8>, pos: int) -> Result<(Seq<u8>, int), SyntaxView> {
    let end = name_end(input, pos);
    if end == pos {
        Err(SyntaxView { offset: pos, message: "expected identifier"@ })
    } else {
        Ok((input.subrange(pos, end), end))
    }
}

/// `front` before the bytes of a token.
pub open spec fn with_front(
    front: Seq<u8>,
    token: Result<(Seq<u8>, int), SyntaxView>,
) -> Result<(Seq<u8>, int), SyntaxView> {
    match token {
        Ok((bytes, end)) => Ok((front + bytes, end)),
        Err(error) => Err(error),
    }
}

/// The quoted value whose text begins at `pos`, and the position behind its
/// closing quote. A backslash stands for the byte behind it.
pub open spec fn quoted_at(input: Seq<u8>, pos: int, quote: u8) -> Result<
    (Seq<u8>, int),
    SyntaxView,
>
    decreases input.len() - pos,
{
    if pos < 0 || pos >= input.len() {
        Err(SyntaxView { offset: pos, message: "missing closing quote"@ })
    } else if input[pos] == quote {
        Ok((Seq::empty(), pos + 1))
    } else if input[pos] == 0x5c {
        if pos + 1 >= input.len() {
            Err(SyntaxView { offset: pos + 1, message: "unterminated escape"@ })
        } else {
            with_front(seq![input[pos + 1]], quoted_at(input, pos + 2, quote))
        }
    } else {
        with_front(seq![input[pos]], quoted_at(input, pos + 1, quote))
    }
}

/// The value at `pos`, and the position behind it.
pub open spec fn value_at(input: Seq<u8>, pos: int) -> Result<(Seq<u8>, int), SyntaxView> {
    let at = skipped(input, pos);
    let end = bare_end(input, at);
    if at < input.len() && (input[at] == 0x22 || input[at] == 0x27) {
        quoted_at(input, at + 1, input[at])
    } else if end == at {
        Err(SyntaxView { offset: at, message: "expected value"@ })
    } else {
        Ok((input.subrange(at, end), end))
    }
}

/// How the absence of a punctuation byte is reported.
pub open spec fn expected_text(byte: u8) -> Seq<char> {
    if byte == 0x7b {
        "expected '{'"@
    } else if byte == 0x3d {
        "expected '='"@
    } else {
        "expected ';'"@
    }
}

/// The position behind the punctuation byte that is due at `pos`.
pub open spec fn punctuation_at(input: Seq<u8>, pos: int, byte: u8) -> Result<int, SyntaxView> {
    let at = skipped(input, pos);
    if at < input.len() && input[at] == byte {
        Ok(at + 1)
    } else {
        Err(SyntaxView { offset: at, message: expected_text(byte) })
    }
}

/// The setting `key = value ;` at `pos`, and the position behind it.
pub open spec fn setting_at(input: Seq<u8>, pos: int) -> Result<
    (Seq<u8>, Seq<u8>, int),
    SyntaxView,
> {
    match name_at(input, pos) {
        Err(error) => Err(error),
        Ok((key, pos)) => match punctuation_at(input, pos, 0x3d) {
            Err(error) => Err(error),
            Ok(pos) => match value_at(input, pos) {
                Err(error) => Err(error),
                Ok((value, pos)) => match punctuation_at(input, pos, 0x3b) {
                    Err(error) => Err(error),
                    Ok(pos) => Ok((key, value, pos)),
                },
            },
        },
    }
}

/// A quoted value ends behind its beginning, inside the input.
proof fn lemma_quoted(input: Seq<u8>, pos: int, quote: u8)
    requires
        0 <= pos <= input.len(),
    ensures
        quoted_at(input, pos, quote) matches Ok((_, end)) ==> pos < end <= input.len(),
        quoted_at(input, pos, quote) matches Err(error) ==> pos <= error.offset <= input.len(),
    decreases input.len() - pos,
{
    if pos < input.len() && input[pos] != quote {
        if input[pos] == 0x5c {
            if pos + 1 < input.len() {
                lemma_quoted(input, pos + 2, quote);
            }
        } else {
            lemma_quoted(input, pos + 1, quote);
        }
    }
}

/// A value ends behind its beginning, inside the input.
proof fn lemma_value(input: Seq<u8>, pos: int)
    requires
        0 <= pos <= input.len(),
    ensures
        value_at(input, pos) matches Ok((_, end)) ==> pos < end <= input.len(),
        value_at(input, pos) matches Err(error) ==> pos <= error.offset <= input.len(),
{
    lemma_skipped(input, pos);
    let at = skipped(input, pos);
    if at < input.len() && (input[at] == 0x22 || input[at] == 0x27) {
        lemma_quoted(input, at + 1, input[at]);
    } else {
        lemma_run_end(input, at, |byte: u8| is_bare(byte));
    }
}

/// A setting ends behind its beginning, inside the input.
pub proof fn lemma_setting(input: Seq<u8>, pos: int)
    requires
        0 <= pos <= input.len(),
    ensures
        setting_at(input, pos) matches Ok((_, _, end)) ==> pos < end <= input.len(),
        setting_at(input, pos) matches Err(error) ==> pos <= error.offset <= input.len(),
{
    lemma_run_end(input, pos, |byte: u8| is_name(byte));
    if let Ok((_, pos)) = name_at(input, pos) {
        lemma_skipped(input, pos);
        if let Ok(pos) = punctuation_at(input, pos, 0x3d) {
            lemma_value(input, pos);
            if let Ok((_, pos)) = value_at(input, pos) {
                lemma_skipped(input, pos);
            }
        }
    }
}

/// The settings from `pos` up to the closing brace, put on top of `above`, and
/// the position behind the brace. Of two settings with one key the later holds.
pub open spec fn settings_at(input: Seq<u8>, pos: int, above: Settings) -> Result<
    (Settings, int),
    SyntaxView,
>
    decreases input.len() - pos,
{
    let at = skipped(input, pos);
    if at < input.len() && input[at] == 0x7d {
        Ok((above, at + 1))
    } else if 0 <= pos <= input.len() {
        proof {
            lemma_skipped(input, pos);
            lemma_setting(input, at);
        }
        match setting_at(input, at) {
            Err(error) => Err(error),
            Ok((key, value, end)) => settings_at(
                input,
                end,
                above.insert(decode_utf8(key), decode_utf8(value)),
            ),
        }
    } else {
        Err(SyntaxView { offset: pos, message: "expected identifier"@ })
    }
}

/// Settings end behind their beginning, inside the input.
proof fn lemma_settings(input: Seq<u8>, pos: int, above: Settings)
    requires
        0 <= pos <= input.len(),
    ensures
        settings_at(input, pos, above) matches Ok((_, end)) ==> pos < end <= input.len(),
        settings_at(input, pos, above) matches Err(error) ==> pos <= error.offset <= input.len(),
    decreases input.len() - pos,
{
    lemma_skipped(input, pos);
    let at = skipped(input, pos);
    if !(at < input.len() && input[at] == 0x7d) {
        lemma_setting(input, at);
        if let Ok((key, value, end)) = setting_at(input, at) {
            lemma_settings(input, end, above.insert(decode_utf8(key), decode_utf8(value)));
        }
    }
}

/// The block `name { settings }` at `pos`, and the position behind it.
pub open spec fn block_at(input: Seq<u8>, pos: int) -> Result<
    (Seq<u8>, Settings, int),
    SyntaxView,
> {
    match name_at(input, pos) {
        Err(error) => Err(error),
        Ok((name, pos)) => match punctuation_at(input, pos, 0x7b) {
            Err(error) => Err(error),
            Ok(pos) => match settings_at(input, pos, Map::empty()) {
                Err(error) => Err(error),
                Ok((settings, pos)) => Ok((name, settings, pos)),
            },
        },
    }
}

/// A block ends behind its beginning, inside the input.
pub proof fn lemma_block(input: Seq<u8>, pos: int)
    requires
        0 <= pos <= input.len(),
    ensures
        block_at(input, pos) matches Ok((_, _, end)) ==> pos < end <= input.len(),
        block_at(input, pos) matches Err(error) ==> pos <= error.offset <= input.len(),
{
    lemma_run_end(input, pos, |byte: u8| is_name(byte));
    if let Ok((_, pos)) = name_at(input, pos) {
        lemma_skipped(input, pos);
        if let Ok(pos) = punctuation_at(input, pos, 0x7b) {
            lemma_settings(input, pos, Map::empty());
        }
    }
}

/// The blocks from `pos` to the end of the input, put on top of `above`. Of two
/// blocks with one name the later holds, whole.
pub open spec fn blocks_at(input: Seq<u8>, pos: int, above: Map<Seq<char>, Settings>) -> Result<
    Map<Seq<char>, Settings>,
    SyntaxView,
>
    decreases input.len() - pos,
{
    let at = skipped(input, pos);
    if pos < 0 || pos > input.len() || at >= input.len() {
        Ok(above)
    } else {
        proof {
            lemma_skipped(input, pos);
            lemma_block(input, at);
        }
        match block_at(input, at) {
            Err(error) => Err(error),
            Ok((name, settings, end)) => blocks_at(
                input,
                end,
                above.insert(decode_utf8(name), settings),
            ),
        }
    }
}

/// The blocks of a configuration text.
pub open spec fn blocks_of(input: Seq<char>) -> Result<Map<Seq<char>, Settings>, SyntaxView> {
    blocks_at(encode_utf8(input), 0, Map::empty())
}

/// An error in the blocks is reported inside the input.
proof fn lemma_blocks(input: Seq<u8>, pos: int, above: Map<Seq<char>, Settings>)
    requires
        0 <= pos <= input.len(),
    ensures
        blocks_at(input, pos, above) matches Err(error) ==> pos <= error.offset <= input.len(),
    decreases input.len() - pos,
{
    lemma_skipped(input, pos);
    let at = skipped(input, pos);
    if at < input.len() {
        lemma_block(input, at);
        if let Ok((name, settings, end)) = block_at(input, at) {
            lemma_blocks(input, end, above.insert(decode_utf8(name), settings));
        }
    }
}

/// A syntax error is reported inside the text or at its end.
pub proof fn law_error_offset_in_text(input: Seq<char>)
    ensures
        blocks_of(input) matches Err(error) ==> 0 <= error.offset <= encode_utf8(input).len(),
{
    lemma_blocks(encode_utf8(input), 0, Map::empty());
}

/// A text of white space and comments alone is an empty configuration.
pub proof fn law_blank_text_has_no_blocks(input: Seq<char>)
    requires
        skipped(encode_utf8(input), 0) == encode_utf8(input).len(),
    ensures
        blocks_of(input) == Ok::<_, SyntaxView>(Map::<Seq<char>, Settings>::empty()),
{
}

/// A value inside quotes: a backslash before each quote and each backslash.
pub open spec fn escaped(value: Seq<u8>) -> Seq<u8>
    decreases value.len(),
{
    if value.len() == 0 {
        Seq::empty()
    } else if value[0] == 0x22 || value[0] == 0x5c {
        seq![0x5cu8, value[0]] + escaped(value.skip(1))
    } else {
        seq![value[0]] + escaped(value.skip(1))
    }
}

/// A setting, written out with its value in quotes.
pub open spec fn written_setting(key: Seq<u8>, value: Seq<u8>) -> Seq<u8> {
    key + seq![0x3du8, 0x22u8] + escaped(value) + seq![0x22u8, 0x3bu8]
}

/// Settings, written out one behind the other.
pub open spec fn written_settings(settings: Seq<(Seq<u8>, Seq<u8>)>) -> Seq<u8>
    decreases settings.len(),
{
    if settings.len() == 0 {
        Seq::empty()
    } else {
        written_setting(settings[0].0, settings[0].1) + written_settings(settings.skip(1))
    }
}

/// A block, written out.
pub open spec fn written_block(name: Seq<u8>, settings: Seq<(Seq<u8>, Seq<u8>)>) -> Seq<u8> {
    name + seq![0x7bu8] + written_settings(settings) + seq![0x7du8]
}

/// Blocks, written out one behind the other.
pub open spec fn written_blocks(blocks: Seq<(Seq<u8>, Seq<(Seq<u8>, Seq<u8>)>)>) -> Seq<u8>
    decreases blocks.len(),
{
    if blocks.len() == 0 {
        Seq::empty()
    } else {
        written_block(blocks[0].0, blocks[0].1) + written_blocks(blocks.skip(1))
    }
}

/// A name: not empty, and of the bytes of names alone.
pub open spec fn is_written_name(name: Seq<u8>) -> bool {
    name.len() > 0 && forall|i: int| 0 <= i < name.len() ==> is_name(#[trigger] name[i])
}

/// The settings as a map, put on top of `above`: the later of two with one key
/// holds.
pub open spec fn settings_map(settings: Seq<(Seq<u8>, Seq<u8>)>, above: Settings) -> Settings
    decreases settings.len(),
{
    if settings.len() == 0 {
        above
    } else {
        settings_map(
            settings.skip(1),
            above.insert(decode_utf8(settings[0].0), decode_utf8(settings[0].1)),
        )
    }
}

/// The blocks as a map, put on top of `above`: the later of two with one name
/// holds.
pub open spec fn blocks_map(
    blocks: Seq<(Seq<u8>, Seq<(Seq<u8>, Seq<u8>)>)>,
    above: Map<Seq<char>, Settings>,
) -> Map<Seq<char>, Settings>
    decreases blocks.len(),
{
    if blocks.len() == 0 {
        above
    } else {
        blocks_map(
            blocks.skip(1),
            above.insert(decode_utf8(blocks[0].0), settings_map(blocks[0].1, Map::empty())),
        )
    }
}

/// All names in a block are names.
pub open spec fn has_written_names(settings: Seq<(Seq<u8>, Seq<u8>)>) -> bool {
    forall|i: int| 0 <= i < settings.len() ==> is_written_name((#[trigger] settings[i]).0)
}

/// Nothing is skipped where a token begins.
proof fn lemma_nothing_skipped(input: Seq<u8>, pos: int)
    requires
        0 <= pos < input.len(),
        !is_space(input[pos]),
        input[pos] != 0x23,
    ensures
        skipped(input, pos) == pos,
{
}

proof fn lemma_quoted_reads_back(before: Seq<u8>, value: Seq<u8>, rest: Seq<u8>)
    ensures
        quoted_at(before + escaped(value) + seq![0x22u8] + rest, before.len() as int, 0x22)
            == Ok::<_, SyntaxView>(
            (value, (before.len() + escaped(value).len() + 1) as int),
        ),
    decreases value.len(),
{
    let input = before + escaped(value) + seq![0x22u8] + rest;
    let pos = before.len() as int;
    if value.len() == 0 {
        assert(input[pos] == 0x22);
        assert(value =~= Seq::empty());
    } else {
        let tail = value.skip(1);
        let token = if value[0] == 0x22 || value[0] == 0x5c {
            seq![0x5cu8, value[0]]
        } else {
            seq![value[0]]
        };
        let front = before + token;
        assert(input =~= front + escaped(tail) + seq![0x22u8] + rest);
        lemma_quoted_reads_back(front, tail, rest);
        assert(input[pos] == token[0]);
        if token.len() == 2 {
            assert(input[pos + 1] == token[1]);
        }
        assert(seq![value[0]] + tail =~= value);
    }
}

proof fn lemma_name_reads_back(before: Seq<u8>, name: Seq<u8>, rest: Seq<u8>)
    requires
        is_written_name(name),
        rest.len() > 0,
        !is_name(rest[0]),
    ensures
        name_at(before + name + rest, before.len() as int) == Ok::<_, SyntaxView>(
            (name, (before.len() + name.len()) as int),
        ),
        skipped(before + name + rest, before.len() as int) == before.len(),
{
    let input = before + name + rest;
    let pos = before.len() as int;
    let end = pos + name.len();
    assert forall|i: int| pos <= i < end implies is_name(#[trigger] input[i]) by {
        assert(input[i] == name[i - pos]);
    }
    assert(input[end] == rest[0]);
    lemma_run_is(input, pos, |byte: u8| is_name(byte), end);
    assert(input.subrange(pos, end) =~= name);
    assert(input[pos] == name[0]);
    lemma_nothing_skipped(input, pos);
}

proof fn lemma_setting_reads_back(before: Seq<u8>, key: Seq<u8>, value: Seq<u8>, rest: Seq<u8>)
    requires
        is_written_name(key),
    ensures
        setting_at(before + written_setting(key, value) + rest, before.len() as int) == Ok::<
            _,
            SyntaxView,
        >((key, value, (before.len() + written_setting(key, value).len()) as int)),
        skipped(before + written_setting(key, value) + rest, before.len() as int) == before.len(),
{
    let input = before + written_setting(key, value) + rest;
    let behind_key = seq![0x3du8, 0x22u8] + escaped(value) + seq![0x22u8, 0x3bu8] + rest;
    assert(input =~= before + key + behind_key);
    lemma_name_reads_back(before, key, behind_key);
    let equals = before.len() + key.len();
    assert(input[equals as int] == 0x3d);
    lemma_nothing_skipped(input, equals as int);
    let opening = before + key + seq![0x3du8];
    assert(input[opening.len() as int] == 0x22);
    lemma_nothing_skipped(input, opening.len() as int);
    let front = before + key + seq![0x3du8, 0x22u8];
    let behind = seq![0x3bu8] + rest;
    assert(input =~= front + escaped(value) + seq![0x22u8] + behind);
    lemma_quoted_reads_back(front, value, behind);
    let semicolon = front.len() + escaped(value).len() + 1;
    assert(input[semicolon as int] == 0x3b);
    lemma_nothing_skipped(input, semicolon as int);
}

proof fn lemma_settings_read_back(
    before: Seq<u8>,
    settings: Seq<(Seq<u8>, Seq<u8>)>,
    above: Settings,
    rest: Seq<u8>,
)
    requires
        has_written_names(settings),
    ensures
        settings_at(
            before + written_settings(settings) + seq![0x7du8] + rest,
            before.len() as int,
            above,
        ) == Ok::<_, SyntaxView>(
            (
                settings_map(settings, above),
                (before.len() + written_settings(settings).len() + 1) as int,
            ),
        ),
    decreases settings.len(),
{
    let input = before + written_settings(settings) + seq![0x7du8] + rest;
    let pos = before.len() as int;
    if settings.len() == 0 {
        assert(input[pos] == 0x7d);
        lemma_nothing_skipped(input, pos);
    } else {
        let (key, value) = settings[0];
        let others = settings.skip(1);
        let first = written_setting(key, value);
        let behind = written_settings(others) + seq![0x7du8] + rest;
        assert(input =~= before + first + behind);
        lemma_setting_reads_back(before, key, value, behind);
        assert(input[pos] == key[0]);
        let front = before + first;
        assert(input =~= front + written_settings(others) + seq![0x7du8] + rest);
        assert forall|i: int| 0 <= i < others.len() implies is_written_name(
            (#[trigger] others[i]).0,
        ) by {
            assert(others[i] == settings[i + 1]);
        }
        lemma_settings_read_back(
            front,
            others,
            above.insert(decode_utf8(key), decode_utf8(value)),
            rest,
        );
    }
}

proof fn lemma_block_reads_back(
    before: Seq<u8>,
    name: Seq<u8>,
    settings: Seq<(Seq<u8>, Seq<u8>)>,
    rest: Seq<u8>,
)
    requires
        is_written_name(name),
        has_written_names(settings),
    ensures
        block_at(before + written_block(name, settings) + rest, before.len() as int) == Ok::<
            _,
            SyntaxView,
        >(
            (
                name,
                settings_map(settings, Map::empty()),
                (before.len() + written_block(name, settings).len()) as int,
            ),
        ),
        skipped(before + written_block(name, settings) + rest, before.len() as int)
            == before.len(),
{
    let input = before + written_block(name, settings) + rest;
    let behind_name = seq![0x7bu8] + written_settings(settings) + seq![0x7du8] + rest;
    assert(input =~= before + name + behind_name);
    lemma_name_reads_back(before, name, behind_name);
    let brace = before.len() + name.len();
    assert(input[brace as int] == 0x7b);
    lemma_nothing_skipped(input, brace as int);
    let front = before + name + seq![0x7bu8];
    assert(input =~= front + written_settings(settings) + seq![0x7du8] + rest);
    lemma_settings_read_back(front, settings, Map::empty(), rest);
}

proof fn lemma_blocks_read_back(
    before: Seq<u8>,
    blocks: Seq<(Seq<u8>, Seq<(Seq<u8>, Seq<u8>)>)>,
    above: Map<Seq<char>, Settings>,
)
    requires
        forall|i: int|
            0 <= i < blocks.len() ==> is_written_name((#[trigger] blocks[i]).0)
                && has_written_names(blocks[i].1),
    ensures
        blocks_at(before + written_blocks(blocks), before.len() as int, above) == Ok::<
            _,
            SyntaxView,
        >(blocks_map(blocks, above)),
    decreases blocks.len(),
{
    let input = before + written_blocks(blocks);
    if blocks.len() == 0 {
        assert(input =~= before);
    } else {
        let (name, settings) = blocks[0];
        let others = blocks.skip(1);
        let first = written_block(name, settings);
        assert(input =~= before + first + written_blocks(others));
        lemma_block_reads_back(before, name, settings, written_blocks(others));
        let front = before + first;
        assert(input =~= front + written_blocks(others));
        assert forall|i: int| 0 <= i < others.len() implies is_written_name(
            (#[trigger] others[i]).0,
        ) && has_written_names(others[i].1) by {
            assert(others[i] == blocks[i + 1]);
        }
        lemma_blocks_read_back(
            front,
            others,
            above.insert(decode_utf8(name), settings_map(settings, Map::empty())),
        );
    }
}

/// A configuration that is written out with its values in quotes is read back
/// as it was: every block and every setting, whatever bytes the values hold.
pub proof fn law_written_configuration_reads_back(
    input: Seq<char>,
    blocks: Seq<(Seq<u8>, Seq<(Seq<u8>, Seq<u8>)>)>,
)
    requires
        encode_utf8(input) == written_blocks(blocks),
        forall|i: int|
            0 <= i < blocks.len() ==> is_written_name((#[trigger] blocks[i]).0)
                && has_written_names(blocks[i].1),
    ensures
        blocks_of(input) == Ok::<_, SyntaxView>(blocks_map(blocks, Map::empty())),
{
    let none = Seq::<u8>::empty();
    lemma_blocks_read_back(none, blocks, Map::empty());
    assert(none + written_blocks(blocks) =~= written_blocks(blocks));
}

/// `pos` is the end of `input` or the first byte of a character.
spec fn at_char(input: Seq<u8>, pos: int) -> bool {
    0 <= pos <= input.len() && (pos == input.len() || !is_continuation_byte(input[pos]))
}

proof fn lemma_boundary(input: Seq<u8>, pos: int)
    requires
        valid_utf8(input),
        at_char(input, pos),
    ensures
        is_char_boundary(input, pos),
        valid_utf8(input.skip(pos)),
        valid_utf8(input.take(pos)),
{
    if pos < input.len() {
        is_char_boundary_iff_not_is_continuation_byte(input, pos);
    } else {
        is_char_boundary_start_end_of_seq(input);
    }
    valid_utf8_split(input, pos);
    assert(input.subrange(pos, input.len() as int) =~= input.skip(pos));
    assert(input.subrange(0, pos) =~= input.take(pos));
}

/// What lies between two character boundaries is UTF-8.
proof fn lemma_piece(input: Seq<u8>, from: int, to: int)
    requires
        valid_utf8(input),
        at_char(input, from),
        at_char(input, to),
        from <= to,
    ensures
        valid_utf8(input.subrange(from, to)),
{
    lemma_boundary(input, to);
    let front = input.take(to);
    assert(at_char(front, from));
    lemma_boundary(front, from);
    assert(front.skip(from) =~= input.subrange(from, to));
}

/// The character at a character boundary: how many bytes it has, and that the
/// next boundary follows it.
proof fn lemma_char(input: Seq<u8>, pos: int) -> (width: int)
    requires
        valid_utf8(input),
        at_char(input, pos),
        pos < input.len(),
    ensures
        1 <= width,
        at_char(input, pos + width),
        forall|i: int| pos < i < pos + width ==> #[trigger] input[i] >= 0x80,
        input[pos] < 0x80 <==> width == 1,
        valid_utf8(input.subrange(pos, pos + width)),
{
    reveal_with_fuel(valid_utf8, 2);
    lemma_boundary(input, pos);
    let rest = input.skip(pos);
    assert(valid_first_scalar(rest));
    let width = length_of_first_scalar(rest);
    let behind = pop_first_scalar(rest);
    assert(behind =~= input.skip(pos + width));
    if behind.len() > 0 {
        assert(valid_first_scalar(behind));
        assert(behind[0] == input[pos + width]);
    }
    assert forall|i: int| pos < i < pos + width implies #[trigger] input[i] >= 0x80 by {
        assert(rest[i - pos] == input[i]);
    }
    lemma_piece(input, pos, pos + width);
    width
}

/// A run of ASCII bytes from a character boundary ends at one.
proof fn lemma_ascii_run(input: Seq<u8>, from: int, to: int)
    requires
        valid_utf8(input),
        at_char(input, from),
        from <= to <= input.len(),
        forall|i: int| from <= i < to ==> #[trigger] input[i] < 0x80,
    ensures
        at_char(input, to),
        valid_utf8(input.subrange(from, to)),
    decreases to - from,
{
    if from < to {
        let width = lemma_char(input, from);
        lemma_ascii_run(input, from + 1, to);
    }
    lemma_piece(input, from, to);
}

/// Skipping goes from a character boundary to a character boundary.
proof fn lemma_skipped_char(input: Seq<u8>, pos: int)
    requires
        valid_utf8(input),
        at_char(input, pos),
    ensures
        at_char(input, skipped(input, pos)),
    decreases input.len() - pos,
{
    lemma_run_end(input, pos, |byte: u8| is_space(byte));
    let at = space_end(input, pos);
    lemma_ascii_run(input, pos, at);
    if at < input.len() && input[at] == 0x23 {
        lemma_run_end(input, at, |byte: u8| byte != 0x0a);
        lemma_skipped_char(input, line_end(input, at));
    }
}

/// Bytes that are not ASCII stand for themselves in a quoted value.
proof fn lemma_quoted_run(input: Seq<u8>, pos: int, len: int, quote: u8)
    requires
        0 <= pos,
        0 <= len,
        pos + len <= input.len(),
        quote < 0x80,
        forall|i: int| pos <= i < pos + len ==> #[trigger] input[i] >= 0x80,
    ensures
        quoted_at(input, pos, quote) == with_front(
            input.subrange(pos, pos + len),
            quoted_at(input, pos + len, quote),
        ),
    decreases len,
{
    let rest = quoted_at(input, pos + len, quote);
    if len > 0 {
        lemma_quoted_run(input, pos + 1, len - 1, quote);
        if let Ok((bytes, end)) = rest {
            assert(seq![input[pos]] + (input.subrange(pos + 1, pos + len) + bytes)
                =~= input.subrange(pos, pos + len) + bytes);
        }
    } else if let Ok((bytes, end)) = rest {
        assert(input.subrange(pos, pos) + bytes =~= bytes);
    }
}

/// A quoted value that begins at a character boundary is UTF-8 and ends at a
/// character boundary.
proof fn lemma_quoted_text(input: Seq<u8>, pos: int, quote: u8)
    requires
        valid_utf8(input),
        at_char(input, pos),
        quote < 0x80,
    ensures
        quoted_at(input, pos, quote) matches Ok((bytes, end)) ==> valid_utf8(bytes) && at_char(
            input,
            end,
        ),
    decreases input.len() - pos,
{
    if pos < input.len() {
        let width = lemma_char(input, pos);
        if input[pos] == quote {
        } else if input[pos] == 0x5c {
            if pos + 1 < input.len() {
                let width = lemma_char(input, pos + 1);
                lemma_quoted_run(input, pos + 2, width - 1, quote);
                lemma_quoted_text(input, pos + 1 + width, quote);
                if let Ok((bytes, end)) = quoted_at(input, pos + 1 + width, quote) {
                    let token = input.subrange(pos + 1, pos + 1 + width);
                    valid_utf8_concat(token, bytes);
                    assert(seq![input[pos + 1]] + (input.subrange(pos + 2, pos + 1 + width) + bytes)
                        =~= token + bytes);
                }
            }
        } else {
            lemma_quoted_run(input, pos + 1, width - 1, quote);
            lemma_quoted_text(input, pos + width, quote);
            if let Ok((bytes, end)) = quoted_at(input, pos + width, quote) {
                let token = input.subrange(pos, pos + width);
                valid_utf8_concat(token, bytes);
                assert(seq![input[pos]] + (input.subrange(pos + 1, pos + width) + bytes) =~= token
                    + bytes);
            }
        }
    }
}

/// The texts of a block's settings.
pub open spec fn settings_view(settings: OrdMap<String>) -> Settings {
    settings@.map_values(|value: String| value@)
}

/// The texts of all blocks.
pub open spec fn blocks_view(blocks: OrdMap<OrdMap<String>>) -> Map<Seq<char>, Settings> {
    blocks@.map_values(|settings: OrdMap<String>| settings_view(settings))
}

/// Where and why parsing failed.
pub struct SyntaxError {
    /// Byte offset where parsing failed.
    pub offset: usize,
    /// Description of the syntax error.
    pub message: String,
}

impl View for SyntaxError {
    type V = SyntaxView;

    open spec fn view(&self) -> SyntaxView {
        SyntaxView { offset: self.offset as int, message: self.message@ }
    }
}

/// The result `parsed` is the token, or the error, that the grammar gives.
spec fn is_token(
    parsed: Result<String, SyntaxError>,
    token: Result<(Seq<u8>, int), SyntaxView>,
    end: int,
) -> bool {
    match token {
        Ok((bytes, expected_end)) => parsed is Ok && parsed->Ok_0@ == decode_utf8(bytes) && end
            == expected_end,
        Err(error) => parsed is Err && parsed->Err_0@ == error,
    }
}

struct Parser<'a> {
    input: &'a [u8],
    pos: usize,
}

impl<'a> Parser<'a> {
    spec fn well_formed(&self) -> bool {
        valid_utf8(self.input@) && at_char(self.input@, self.pos as int)
    }

    fn new(input: &'a str) -> (parser: Self)
        ensures
            parser.well_formed(),
            parser.input@ == encode_utf8(input@),
            parser.pos == 0,
    {
        let bytes = input.as_bytes();
        proof {
            encode_utf8_valid_utf8(input@);
            is_char_boundary_start_end_of_seq(bytes@);
            if bytes@.len() > 0 {
                is_char_boundary_iff_not_is_continuation_byte(bytes@, 0);
            }
        }
        Parser { input: bytes, pos: 0 }
    }

    fn error(&self, message: &str) -> (error: SyntaxError)
        ensures
            error@ == (SyntaxView { offset: self.pos as int, message: message@ }),
    {
        SyntaxError { offset: self.pos, message: message.to_owned() }
    }

    fn skip_space_and_comments(&mut self) -> (more: bool)
        requires
            old(self).well_formed(),
        ensures
            final(self).well_formed(),
            final(self).input == old(self).input,
            final(self).pos == skipped(old(self).input@, old(self).pos as int),
            more == (final(self).pos < final(self).input@.len()),
    {
        let ghost input = self.input@;
        let ghost first = self.pos as int;
        proof {
            lemma_skipped_char(input, first);
        }
        loop
            invariant
                self.input == old(self).input,
                input == self.input@,
                first == old(self).pos,
                valid_utf8(input),
                at_char(input, skipped(input, first)),
                0 <= self.pos <= input.len(),
                skipped(input, first) == skipped(input, self.pos as int),
            decreases input.len() - self.pos,
        {
            let ghost from = self.pos as int;
            while self.pos < self.input.len() && space(self.input[self.pos])
                invariant
                    self.input == old(self).input,
                    input == self.input@,
                    0 <= from <= self.pos <= input.len(),
                    forall|i: int| from <= i < self.pos ==> is_space(#[trigger] input[i]),
                decreases input.len() - self.pos,
            {
                self.pos = self.pos + 1;
            }
            proof {
                lemma_run_is(input, from, |byte: u8| is_space(byte), self.pos as int);
            }
            if self.pos < self.input.len() && self.input[self.pos] == 0x23 {
                let ghost hash = self.pos as int;
                while self.pos < self.input.len() && self.input[self.pos] != 0x0a
                    invariant
                        self.input == old(self).input,
                        input == self.input@,
                        0 <= hash <= self.pos <= input.len(),
                        forall|i: int| hash <= i < self.pos ==> #[trigger] input[i] != 0x0a,
                    decreases input.len() - self.pos,
                {
                    self.pos = self.pos + 1;
                }
                proof {
                    lemma_run_is(input, hash, |byte: u8| byte != 0x0a, self.pos as int);
                }
                continue ;
            }
            return self.pos < self.input.len();
        }
    }

    fn identifier(&mut self) -> (name: Result<String, SyntaxError>)
        requires
            old(self).well_formed(),
        ensures
            final(self).input == old(self).input,
            name is Ok ==> final(self).well_formed(),
            is_token(
                name,
                name_at(old(self).input@, old(self).pos as int),
                final(self).pos as int,
            ),
    {
        let start: usize = self.pos;
        let ghost input = self.input@;
        while self.pos < self.input.len() && name_byte(self.input[self.pos])
            invariant
                self.input == old(self).input,
                input == self.input@,
                start <= self.pos <= input.len(),
                forall|i: int| start <= i < self.pos ==> is_name(#[trigger] input[i]),
            decreases input.len() - self.pos,
        {
            self.pos = self.pos + 1;
        }
        proof {
            lemma_run_is(input, start as int, |byte: u8| is_name(byte), self.pos as int);
            lemma_ascii_run(input, start as int, self.pos as int);
        }
        if start == self.pos {
            return Err(self.error("expected identifier"));
        }
        Ok(lossy_text(slice_subrange(self.input, start, self.pos)))
    }

    fn value(&mut self) -> (value: Result<String, SyntaxError>)
        requires
            old(self).well_formed(),
        ensures
            final(self).input == old(self).input,
            value is Ok ==> final(self).well_formed(),
            is_token(
                value,
                value_at(old(self).input@, old(self).pos as int),
                final(self).pos as int,
            ),
    {
        let ghost input = self.input@;
        self.skip_space_and_comments();
        let start: usize = self.pos;
        if self.pos < self.input.len() && (self.input[self.pos] == 0x22 || self.input[self.pos]
            == 0x27) {
            let quote: u8 = self.input[self.pos];
            let ghost first = start + 1;
            proof {
                let width = lemma_char(input, start as int);
                lemma_quoted_text(input, first, quote);
            }
            self.pos = self.pos + 1;
            let mut output: Vec<u8> = Vec::new();
            proof {
                if let Ok((bytes, end)) = quoted_at(input, first, quote) {
                    assert(output@ + bytes =~= bytes);
                }
            }
            while self.pos < self.input.len()
                invariant
                    self.input == old(self).input,
                    input == self.input@,
                    valid_utf8(input),
                    0 <= first <= self.pos <= input.len(),
                    value_at(input, old(self).pos as int) == quoted_at(input, first, quote),
                    quoted_at(input, first, quote) matches Ok((bytes, end)) ==> valid_utf8(bytes)
                        && at_char(input, end),
                    quoted_at(input, first, quote) == with_front(
                        output@,
                        quoted_at(input, self.pos as int, quote),
                    ),
                decreases input.len() - self.pos,
            {
                let byte: u8 = self.input[self.pos];
                let ghost before = self.pos as int;
                let ghost held = output@;
                self.pos = self.pos + 1;
                if byte == quote {
                    assert(output@ + Seq::<u8>::empty() =~= output@);
                    return Ok(lossy_text(output.as_slice()));
                }
                if byte == 0x5c {
                    if self.pos < self.input.len() {
                        let escaped: u8 = self.input[self.pos];
                        self.pos = self.pos + 1;
                        output.push(escaped);
                    } else {
                        return Err(self.error("unterminated escape"));
                    }
                } else {
                    output.push(byte);
                }
                proof {
                    if let Ok((bytes, end)) = quoted_at(input, self.pos as int, quote) {
                        assert(held + (seq![output@.last()] + bytes) =~= output@ + bytes);
                    }
                }
            }
            return Err(self.error("missing closing quote"));
        }
        while self.pos < self.input.len() && !space(self.input[self.pos]) && self.input[self.pos]
            != 0x3b
            invariant
                self.input == old(self).input,
                input == self.input@,
                start <= self.pos <= input.len(),
                forall|i: int| start <= i < self.pos ==> is_bare(#[trigger] input[i]),
            decreases input.len() - self.pos,
        {
            self.pos = self.pos + 1;
        }
        proof {
            lemma_run_is(input, start as int, |byte: u8| is_bare(byte), self.pos as int);
            lemma_piece(input, start as int, self.pos as int);
        }
        if start == self.pos {
            return Err(self.error("expected value"));
        }
        Ok(lossy_text(slice_subrange(self.input, start, self.pos)))
    }

    fn consume(&mut self, byte: u8) -> (found: bool)
        requires
            old(self).well_formed(),
            byte < 0x80,
        ensures
            final(self).well_formed(),
            final(self).input == old(self).input,
            found == (old(self).pos < old(self).input@.len() && old(self).input@[old(
                self,
            ).pos as int] == byte),
            final(self).pos == old(self).pos + (if found {
                1int
            } else {
                0
            }),
    {
        if self.pos < self.input.len() && self.input[self.pos] == byte {
            proof {
                let width = lemma_char(self.input@, self.pos as int);
            }
            self.pos = self.pos + 1;
            true
        } else {
            false
        }
    }

    fn expect(&mut self, byte: u8) -> (met: Result<(), SyntaxError>)
        requires
            old(self).well_formed(),
            byte == 0x7b || byte == 0x3d || byte == 0x3b,
        ensures
            final(self).well_formed(),
            final(self).input == old(self).input,
            match punctuation_at(old(self).input@, old(self).pos as int, byte) {
                Ok(end) => met is Ok && final(self).pos == end,
                Err(error) => met is Err && met->Err_0@ == error,
            },
    {
        self.skip_space_and_comments();
        if self.consume(byte) {
            Ok(())
        } else {
            let message = if byte == 0x7b {
                "expected '{'"
            } else if byte == 0x3d {
                "expected '='"
            } else {
                "expected ';'"
            };
            Err(self.error(message))
        }
    }
}

proof fn lemma_settings_insert(
    before: OrdMap<String>,
    after: OrdMap<String>,
    key: Seq<char>,
    value: String,
)
    requires
        after@ == before@.insert(key, value),
    ensures
        settings_view(after) == settings_view(before).insert(key, value@),
{
    assert(settings_view(after) =~= settings_view(before).insert(key, value@));
}

proof fn lemma_blocks_insert(
    before: OrdMap<OrdMap<String>>,
    after: OrdMap<OrdMap<String>>,
    name: Seq<char>,
    settings: OrdMap<String>,
)
    requires
        after@ == before@.insert(name, settings),
    ensures
        blocks_view(after) == blocks_view(before).insert(name, settings_view(settings)),
{
    assert(blocks_view(after) =~= blocks_view(before).insert(name, settings_view(settings)));
}

impl<'a> Parser<'a> {
    /// Reads one `key = value ;`.
    fn setting(&mut self) -> (setting: Result<(String, String), SyntaxError>)
        requires
            old(self).well_formed(),
        ensures
            final(self).input == old(self).input,
            setting is Ok ==> final(self).well_formed(),
            match setting_at(old(self).input@, old(self).pos as int) {
                Ok((key, value, end)) => setting is Ok && setting->Ok_0.0@ == decode_utf8(key)
                    && setting->Ok_0.1@ == decode_utf8(value) && final(self).pos == end,
                Err(error) => setting is Err && setting->Err_0@ == error,
            },
    {
        let key = match self.identifier() {
            Ok(key) => key,
            Err(error) => return Err(error),
        };
        match self.expect(0x3d) {
            Ok(()) => {},
            Err(error) => return Err(error),
        }
        let value = match self.value() {
            Ok(value) => value,
            Err(error) => return Err(error),
        };
        match self.expect(0x3b) {
            Ok(()) => {},
            Err(error) => return Err(error),
        }
        Ok((key, value))
    }

    /// Reads the settings of a block and its closing brace.
    fn settings(&mut self) -> (settings: Result<OrdMap<String>, SyntaxError>)
        requires
            old(self).well_formed(),
        ensures
            final(self).input == old(self).input,
            settings is Ok ==> final(self).well_formed(),
            match settings_at(old(self).input@, old(self).pos as int, Map::empty()) {
                Ok((expected, end)) => settings is Ok && settings_view(settings->Ok_0) == expected
                    && final(self).pos == end,
                Err(error) => settings is Err && settings->Err_0@ == error,
            },
    {
        let ghost input = self.input@;
        let ghost first = self.pos as int;
        let mut settings: OrdMap<String> = OrdMap::new();
        assert(settings_view(settings) =~= Map::empty());
        loop
            invariant
                self.well_formed(),
                self.input == old(self).input,
                input == self.input@,
                first == old(self).pos,
                settings_at(input, first, Map::empty()) == settings_at(
                    input,
                    self.pos as int,
                    settings_view(settings),
                ),
            decreases input.len() - self.pos,
        {
            let ghost before = self.pos as int;
            proof {
                lemma_skipped(input, before);
                lemma_setting(input, skipped(input, before));
            }
            self.skip_space_and_comments();
            if self.consume(0x7d) {
                return Ok(settings);
            }
            let (key, value) = match self.setting() {
                Ok(setting) => setting,
                Err(error) => return Err(error),
            };
            let ghost held = settings;
            let ghost name = key@;
            settings.insert(key, value);
            proof {
                lemma_settings_insert(held, settings, name, value);
            }
        }
    }

    fn parse(&mut self) -> (blocks: Result<OrdMap<OrdMap<String>>, SyntaxError>)
        requires
            old(self).well_formed(),
        ensures
            match blocks_at(old(self).input@, old(self).pos as int, Map::empty()) {
                Ok(expected) => blocks is Ok && blocks_view(blocks->Ok_0) == expected,
                Err(error) => blocks is Err && blocks->Err_0@ == error,
            },
    {
        let ghost input = self.input@;
        let ghost first = self.pos as int;
        let mut blocks: OrdMap<OrdMap<String>> = OrdMap::new();
        assert(blocks_view(blocks) =~= Map::empty());
        loop
            invariant
                self.well_formed(),
                self.input == old(self).input,
                input == self.input@,
                first == old(self).pos,
                blocks_at(input, first, Map::empty()) == blocks_at(
                    input,
                    self.pos as int,
                    blocks_view(blocks),
                ),
            decreases input.len() - self.pos,
        {
            let ghost before = self.pos as int;
            proof {
                lemma_skipped(input, before);
                lemma_block(input, skipped(input, before));
            }
            if !self.skip_space_and_comments() {
                return Ok(blocks);
            }
            let name = match self.identifier() {
                Ok(name) => name,
                Err(error) => return Err(error),
            };
            match self.expect(0x7b) {
                Ok(()) => {},
                Err(error) => return Err(error),
            }
            let settings = match self.settings() {
                Ok(settings) => settings,
                Err(error) => return Err(error),
            };
            let ghost held = blocks;
            let ghost title = name@;
            blocks.insert(name, settings);
            proof {
                lemma_blocks_insert(held, blocks, title, settings);
            }
        }
    }
}

/// Reads the blocks of a configuration text.
pub fn parse_blocks(input: &str) -> (blocks: Result<OrdMap<OrdMap<String>>, SyntaxError>)
    ensures
        match blocks_of(input@) {
            Ok(expected) => blocks is Ok && blocks_view(blocks->Ok_0) == expected,
            Err(error) => blocks is Err && blocks->Err_0@ == error,
        },
{
    let mut parser = Parser::new(input);
    parser.parse()
}

fn space(byte: u8) -> (found: bool)
    ensures
        found == is_space(byte),
{
    byte == 0x20 || byte == 0x09 || byte == 0x0a || byte == 0x0c || byte == 0x0d
}

fn name_byte(byte: u8) -> (found: bool)
    ensures
        found == is_name(byte),
{
    (0x30 <= byte && byte <= 0x39) || (0x41 <= byte && byte <= 0x5a) || (0x61 <= byte && byte
        <= 0x7a) || byte == 0x5f || byte == 0x2e || byte == 0x2d || byte == 0x3a
}

/// One piece of what may stand between two tokens: one of the bytes 0x20, 0x09,
/// 0x0a, 0x0c and 0x0d, or a comment from `#` to the end of its line.
pub open spec fn is_gap_piece(piece: Seq<u8>) -> bool {
    ||| piece.len() == 1 && (piece[0] == 0x20 || piece[0] == 0x09 || piece[0] == 0x0a || piece[0]
        == 0x0c || piece[0] == 0x0d)
    ||| piece.len() >= 2 && piece[0] == 0x23 && piece.last() == 0x0a && forall|i: int|
        0 <= i < piece.len() - 1 ==> #[trigger] piece[i] != 0x0a
}

/// Whether all pieces may stand between two tokens.
pub open spec fn is_gap(gap: Seq<Seq<u8>>) -> bool {
    forall|i: int| 0 <= i < gap.len() ==> is_gap_piece(#[trigger] gap[i])
}

/// Pieces, one behind the other.
pub open spec fn gap_bytes(gap: Seq<Seq<u8>>) -> Seq<u8>
    decreases gap.len(),
{
    if gap.len() == 0 {
        Seq::empty()
    } else {
        gap[0] + gap_bytes(gap.skip(1))
    }
}

/// A word: one or more of the letters `A` to `Z` and `a` to `z`, the digits `0`
/// to `9`, and `_`, `.`, `-` and `:`.
pub open spec fn is_word(word: Seq<u8>) -> bool {
    word.len() > 0 && forall|i: int| 0 <= i < word.len() ==> is_word_byte(#[trigger] word[i])
}

/// A byte of a word.
pub open spec fn is_word_byte(byte: u8) -> bool {
    ||| 65 <= byte <= 90
    ||| 97 <= byte <= 122
    ||| 48 <= byte <= 57
    ||| byte == 95
    ||| byte == 46
    ||| byte == 45
    ||| byte == 58
}

/// How a value is written.
pub enum Writing {
    /// As it is.
    Bare,
    /// Between two quotes, with a backslash before some of its bytes.
    Quoted { quote: u8, escapes: Seq<bool> },
}

/// A value inside quotes, with a backslash before the bytes that are escaped.
pub open spec fn quoted_body(value: Seq<u8>, escapes: Seq<bool>) -> Seq<u8>
    decreases value.len(),
{
    if value.len() == 0 {
        Seq::empty()
    } else if escapes[0] {
        seq![0x5cu8, value[0]] + quoted_body(value.skip(1), escapes.skip(1))
    } else {
        seq![value[0]] + quoted_body(value.skip(1), escapes.skip(1))
    }
}

/// A setting with everything that may stand between its tokens and behind it.
pub struct SettingText {
    pub key: Seq<u8>,
    pub before_equals: Seq<Seq<u8>>,
    pub before_value: Seq<Seq<u8>>,
    pub value: Seq<u8>,
    pub writing: Writing,
    pub before_semicolon: Seq<Seq<u8>>,
    pub behind: Seq<Seq<u8>>,
}

/// Whether the bytes that stand for themselves in a quoted value are neither
/// the quote nor a backslash.
pub open spec fn is_quotable(value: Seq<u8>, quote: u8, escapes: Seq<bool>) -> bool {
    &&& escapes.len() == value.len()
    &&& forall|i: int|
        0 <= i < value.len() ==> #[trigger] escapes[i] || (value[i] != quote && value[i] != 0x5c)
}

impl SettingText {
    /// The value as it is written.
    pub open spec fn value_bytes(self) -> Seq<u8> {
        match self.writing {
            Writing::Bare => self.value,
            Writing::Quoted { quote, escapes } => seq![quote] + quoted_body(self.value, escapes)
                + seq![quote],
        }
    }

    /// The setting up to its semicolon.
    pub open spec fn body(self) -> Seq<u8> {
        self.key + gap_bytes(self.before_equals) + seq![0x3du8] + gap_bytes(self.before_value)
            + self.value_bytes() + gap_bytes(self.before_semicolon) + seq![0x3bu8]
    }

    /// A value without quotes holds none of the bytes 0x20, 0x09, 0x0a, 0x0c,
    /// 0x0d and `;`, begins with neither a quote nor `#`, and is followed by
    /// one of those bytes. Any other value stands between two equal quotes.
    pub open spec fn ok(self) -> bool {
        &&& is_word(self.key)
        &&& is_gap(self.before_equals)
        &&& is_gap(self.before_value)
        &&& is_gap(self.before_semicolon)
        &&& is_gap(self.behind)
        &&& match self.writing {
            Writing::Bare => {
                &&& self.value.len() > 0
                &&& self.value[0] != 0x22 && self.value[0] != 0x27 && self.value[0] != 0x23
                &&& forall|i: int|
                    0 <= i < self.value.len() ==> #[trigger] self.value[i] != 0x20 && self.value[i]
                        != 0x09 && self.value[i] != 0x0a && self.value[i] != 0x0c && self.value[i]
                        != 0x0d && self.value[i] != 0x3b
                &&& self.before_semicolon.len() > 0 ==> self.before_semicolon[0].len() == 1
            },
            Writing::Quoted { quote, escapes } => (quote == 0x22 || quote == 0x27) && is_quotable(
                self.value,
                quote,
                escapes,
            ),
        }
    }
}

/// Settings, one behind the other.
pub open spec fn settings_bytes(settings: Seq<SettingText>) -> Seq<u8>
    decreases settings.len(),
{
    if settings.len() == 0 {
        Seq::empty()
    } else {
        settings[0].body() + gap_bytes(settings[0].behind) + settings_bytes(settings.skip(1))
    }
}

/// The keys and the values of settings.
pub open spec fn plain_settings(settings: Seq<SettingText>) -> Seq<(Seq<u8>, Seq<u8>)> {
    Seq::new(settings.len(), |i: int| (settings[i].key, settings[i].value))
}

/// A block with everything that may stand between its tokens and behind it.
pub struct BlockText {
    pub name: Seq<u8>,
    pub before_brace: Seq<Seq<u8>>,
    pub behind_brace: Seq<Seq<u8>>,
    pub settings: Seq<SettingText>,
    pub behind: Seq<Seq<u8>>,
}

impl BlockText {
    /// The block up to its first setting.
    pub open spec fn head(self) -> Seq<u8> {
        self.name + gap_bytes(self.before_brace) + seq![0x7bu8] + gap_bytes(self.behind_brace)
    }

    /// The block up to its closing brace.
    pub open spec fn body(self) -> Seq<u8> {
        self.head() + settings_bytes(self.settings) + seq![0x7du8]
    }

    pub open spec fn ok(self) -> bool {
        &&& is_word(self.name)
        &&& is_gap(self.before_brace)
        &&& is_gap(self.behind_brace)
        &&& is_gap(self.behind)
        &&& forall|i: int| 0 <= i < self.settings.len() ==> (#[trigger] self.settings[i]).ok()
    }
}

/// Blocks, one behind the other.
pub open spec fn blocks_bytes(blocks: Seq<BlockText>) -> Seq<u8>
    decreases blocks.len(),
{
    if blocks.len() == 0 {
        Seq::empty()
    } else {
        blocks[0].body() + gap_bytes(blocks[0].behind) + blocks_bytes(blocks.skip(1))
    }
}

/// The names of blocks and their settings.
pub open spec fn plain_blocks(blocks: Seq<BlockText>) -> Seq<(Seq<u8>, Seq<(Seq<u8>, Seq<u8>)>)> {
    Seq::new(blocks.len(), |i: int| (blocks[i].name, plain_settings(blocks[i].settings)))
}

/// White space is one of the five bytes 0x20, 0x09, 0x0a, 0x0c and 0x0d.
/// Between tokens it is passed over wherever it stands, a comment is passed over
/// up to the end of its line, and nothing else is.
pub proof fn law_white_space_and_comments(input: Seq<u8>, pos: int, len: int)
    requires
        0 <= pos < input.len(),
    ensures
        input[pos] == 0x20 || input[pos] == 0x09 || input[pos] == 0x0a || input[pos] == 0x0c
            || input[pos] == 0x0d ==> skipped(input, pos) == skipped(input, pos + 1),
        input[pos] == 0x23 && 0 < len && pos + len < input.len() && input[pos + len] == 0x0a && (
        forall|i: int| pos <= i < pos + len ==> #[trigger] input[i] != 0x0a) ==> skipped(input, pos)
            == skipped(input, pos + len + 1),
        input[pos] == 0x23 && (forall|i: int| pos <= i < input.len() ==> #[trigger] input[i] != 0x0a)
            ==> skipped(input, pos) == input.len(),
        !(input[pos] == 0x20 || input[pos] == 0x09 || input[pos] == 0x0a || input[pos] == 0x0c
            || input[pos] == 0x0d || input[pos] == 0x23) ==> skipped(input, pos) == pos,
{
    if input[pos] == 0x23 {
        assert(space_end(input, pos) == pos);
        if 0 < len && pos + len < input.len() && input[pos + len] == 0x0a && (forall|i: int|
            pos <= i < pos + len ==> #[trigger] input[i] != 0x0a) {
            lemma_run_is(input, pos, |byte: u8| byte != 0x0a, pos + len);
            assert(skipped(input, pos) == skipped(input, pos + len));
            assert(space_end(input, pos + len) == space_end(input, pos + len + 1));
        }
        if forall|i: int| pos <= i < input.len() ==> #[trigger] input[i] != 0x0a {
            lemma_run_is(input, pos, |byte: u8| byte != 0x0a, input.len() as int);
            assert(skipped(input, pos) == skipped(input, input.len() as int));
            assert(space_end(input, input.len() as int) == input.len());
        }
    } else if input[pos] == 0x20 || input[pos] == 0x09 || input[pos] == 0x0a || input[pos] == 0x0c
        || input[pos] == 0x0d {
        assert(space_end(input, pos) == space_end(input, pos + 1));
    }
}

/// What stands between tokens is passed over.
proof fn lemma_gap(before: Seq<u8>, gap: Seq<Seq<u8>>, rest: Seq<u8>)
    requires
        is_gap(gap),
    ensures
        skipped(before + gap_bytes(gap) + rest, before.len() as int) == skipped(
            before + gap_bytes(gap) + rest,
            (before.len() + gap_bytes(gap).len()) as int,
        ),
        gap_bytes(gap).len() > 0 ==> !is_word_byte(gap_bytes(gap)[0]),
        gap.len() > 0 ==> gap_bytes(gap).len() > 0 && gap_bytes(gap)[0] == gap[0][0],
    decreases gap.len(),
{
    let input = before + gap_bytes(gap) + rest;
    if gap.len() > 0 {
        let piece = gap[0];
        let others = gap.skip(1);
        let front = before + piece;
        let pos = before.len() as int;
        assert(is_gap_piece(piece));
        assert forall|i: int| 0 <= i < others.len() implies is_gap_piece(#[trigger] others[i]) by {
            assert(others[i] == gap[i + 1]);
        }
        assert(input =~= front + gap_bytes(others) + rest);
        lemma_gap(front, others, rest);
        assert forall|i: int| 0 <= i < piece.len() implies input[pos + i] == #[trigger] piece[i] by {}
        assert(input[pos] == piece[0]);
        if piece.len() == 1 {
            law_white_space_and_comments(input, pos, 0);
        } else {
            let len = piece.len() - 1;
            assert(input[pos + len] == piece[len]);
            assert forall|i: int| pos <= i < pos + len implies #[trigger] input[i] != 0x0a by {
                assert(input[i] == piece[i - pos]);
            }
            law_white_space_and_comments(input, pos, len);
        }
    }
}

proof fn lemma_token_begins(input: Seq<u8>, pos: int)
    requires
        0 <= pos <= input.len(),
        pos < input.len() ==> !(input[pos] == 0x20 || input[pos] == 0x09 || input[pos] == 0x0a
            || input[pos] == 0x0c || input[pos] == 0x0d || input[pos] == 0x23),
    ensures
        skipped(input, pos) == pos,
{
    if pos < input.len() {
        law_white_space_and_comments(input, pos, 0);
    }
}

/// A word is read whole, up to the first byte that cannot be part of one. Where
/// no such byte stands there is no name, and that is said of this place.
pub proof fn law_words_are_names(before: Seq<u8>, word: Seq<u8>, rest: Seq<u8>)
    requires
        word.len() == 0 || is_word(word),
        rest.len() > 0 ==> !is_word_byte(rest[0]),
    ensures
        word.len() > 0 ==> name_at(before + word + rest, before.len() as int) == Ok::<_, SyntaxView>(
            (word, (before.len() + word.len()) as int),
        ),
        word.len() == 0 ==> name_at(before + word + rest, before.len() as int) == Err::<
            (Seq<u8>, int),
            _,
        >(SyntaxView { offset: before.len() as int, message: "expected identifier"@ }),
{
    let input = before + word + rest;
    let pos = before.len() as int;
    let end = pos + word.len();
    assert forall|i: int| pos <= i < end implies is_name(#[trigger] input[i]) by {
        assert(input[i] == word[i - pos]);
    }
    if rest.len() > 0 {
        assert(input[end] == rest[0]);
    }
    lemma_run_is(input, pos, |byte: u8| is_name(byte), end);
    assert(input.subrange(pos, end) =~= word);
}

/// A punctuation byte that is due is taken. Anything else in its place, or the
/// end of the text, is an error at this place that names it.
pub proof fn law_punctuation_is_required(input: Seq<u8>, pos: int)
    requires
        0 <= pos <= input.len(),
        skipped(input, pos) == pos,
    ensures
        ({
            let found = |byte: u8| pos < input.len() && input[pos] == byte;
            let missing = |message: Seq<char>|
                Err::<int, _>(SyntaxView { offset: pos, message });
            &&& punctuation_at(input, pos, 0x7b) == if found(0x7b) {
                Ok(pos + 1)
            } else {
                missing("expected '{'"@)
            }
            &&& punctuation_at(input, pos, 0x3d) == if found(0x3d) {
                Ok(pos + 1)
            } else {
                missing("expected '='"@)
            }
            &&& punctuation_at(input, pos, 0x3b) == if found(0x3b) {
                Ok(pos + 1)
            } else {
                missing("expected ';'"@)
            }
        }),
{
}

#[verifier::rlimit(20)]
proof fn lemma_quoted_body(
    before: Seq<u8>,
    value: Seq<u8>,
    escapes: Seq<bool>,
    quote: u8,
    rest: Seq<u8>,
)
    requires
        quote != 0x5c,
        is_quotable(value, quote, escapes),
    ensures
        quoted_at(before + quoted_body(value, escapes) + rest, before.len() as int, quote)
            == with_front(
            value,
            quoted_at(
                before + quoted_body(value, escapes) + rest,
                (before.len() + quoted_body(value, escapes).len()) as int,
                quote,
            ),
        ),
    decreases value.len(),
{
    let input = before + quoted_body(value, escapes) + rest;
    let pos = before.len() as int;
    let end = (before.len() + quoted_body(value, escapes).len()) as int;
    let tail = quoted_at(input, end, quote);
    if value.len() == 0 {
        if let Ok((bytes, _)) = tail {
            assert(value + bytes =~= bytes);
        }
    } else {
        let others = value.skip(1);
        let flags = escapes.skip(1);
        let token = if escapes[0] {
            seq![0x5cu8, value[0]]
        } else {
            seq![value[0]]
        };
        let front = before + token;
        assert(input =~= front + quoted_body(others, flags) + rest);
        assert(escapes[0] || (value[0] != quote && value[0] != 0x5c));
        assert forall|i: int| 0 <= i < others.len() implies #[trigger] flags[i] || (others[i] != quote
            && others[i] != 0x5c) by {
            assert(flags[i] == escapes[i + 1] && others[i] == value[i + 1]);
        }
        lemma_quoted_body(front, others, flags, quote, rest);
        assert(input[pos] == token[0]);
        if escapes[0] {
            assert(input[pos + 1] == token[1]);
        }
        if let Ok((bytes, _)) = tail {
            assert(seq![value[0]] + (others + bytes) =~= value + bytes);
        }
    }
}

/// A value between quotes is what stands between them, without the backslashes
/// that escape: a quote or a backslash stands for itself behind a backslash, and
/// so does any other byte. Without the closing quote, or with a backslash at the
/// end of the text, it is an error at the end of the text.
pub proof fn law_quoted_values(
    before: Seq<u8>,
    value: Seq<u8>,
    escapes: Seq<bool>,
    quote: u8,
    rest: Seq<u8>,
)
    requires
        quote == 0x22 || quote == 0x27,
        is_quotable(value, quote, escapes),
    ensures
        ({
            let open = before + seq![quote] + quoted_body(value, escapes);
            let pos = before.len() as int;
            &&& value_at(open + seq![quote] + rest, pos) == Ok::<_, SyntaxView>(
                (value, open.len() as int + 1),
            )
            &&& value_at(open, pos) == Err::<(Seq<u8>, int), _>(
                SyntaxView { offset: open.len() as int, message: "missing closing quote"@ },
            )
            &&& value_at(open + seq![0x5cu8], pos) == Err::<(Seq<u8>, int), _>(
                SyntaxView { offset: open.len() as int + 1, message: "unterminated escape"@ },
            )
        }),
{
    let front = before + seq![quote];
    let body = quoted_body(value, escapes);
    let open = front + body;
    let pos = before.len() as int;
    let none = Seq::<u8>::empty();
    let closed = open + seq![quote] + rest;
    assert(closed =~= open + (seq![quote] + rest));
    lemma_quoted_body(front, value, escapes, quote, seq![quote] + rest);
    assert(closed[pos] == quote);
    lemma_token_begins(closed, pos);
    assert(closed[open.len() as int] == quote);
    assert(value + none =~= value);
    lemma_quoted_body(front, value, escapes, quote, none);
    assert(open + none =~= open);
    assert(open[pos] == quote);
    lemma_token_begins(open, pos);
    let cut = open + seq![0x5cu8];
    lemma_quoted_body(front, value, escapes, quote, seq![0x5cu8]);
    assert(cut[pos] == quote);
    lemma_token_begins(cut, pos);
    assert(cut[open.len() as int] == 0x5c);
}

/// A value without quotes goes up to the first of the bytes 0x20, 0x09, 0x0a,
/// 0x0c, 0x0d and `;`. Where such a semicolon or the end of the text comes first
/// there is no value, and that is said of this place.
pub proof fn law_bare_values(before: Seq<u8>, value: Seq<u8>, rest: Seq<u8>)
    requires
        forall|i: int|
            0 <= i < value.len() ==> #[trigger] value[i] != 0x20 && value[i] != 0x09 && value[i]
                != 0x0a && value[i] != 0x0c && value[i] != 0x0d && value[i] != 0x3b,
        rest.len() > 0 ==> rest[0] == 0x20 || rest[0] == 0x09 || rest[0] == 0x0a || rest[0] == 0x0c
            || rest[0] == 0x0d || rest[0] == 0x3b,
    ensures
        value.len() > 0 && value[0] != 0x22 && value[0] != 0x27 && value[0] != 0x23 ==> value_at(
            before + value + rest,
            before.len() as int,
        ) == Ok::<_, SyntaxView>((value, (before.len() + value.len()) as int)),
        value.len() == 0 && (rest.len() == 0 || rest[0] == 0x3b) ==> value_at(
            before + value + rest,
            before.len() as int,
        ) == Err::<(Seq<u8>, int), _>(
            SyntaxView { offset: before.len() as int, message: "expected value"@ },
        ),
{
    let input = before + value + rest;
    let pos = before.len() as int;
    let end = pos + value.len();
    assert forall|i: int| pos <= i < end implies is_bare(#[trigger] input[i]) by {
        assert(input[i] == value[i - pos]);
    }
    if rest.len() > 0 {
        assert(input[end] == rest[0]);
    }
    lemma_run_is(input, pos, |byte: u8| is_bare(byte), end);
    assert(input.subrange(pos, end) =~= value);
    if value.len() > 0 {
        assert(input[pos] == value[0]);
        if value[0] != 0x23 {
            lemma_token_begins(input, pos);
        }
    } else if rest.len() == 0 || rest[0] == 0x3b {
        lemma_token_begins(input, pos);
    }
}

proof fn lemma_value_same(input: Seq<u8>, pos: int, at: int)
    requires
        skipped(input, pos) == skipped(input, at),
    ensures
        value_at(input, pos) == value_at(input, at),
        punctuation_at(input, pos, 0x3d) == punctuation_at(input, at, 0x3d),
        punctuation_at(input, pos, 0x3b) == punctuation_at(input, at, 0x3b),
        punctuation_at(input, pos, 0x7b) == punctuation_at(input, at, 0x7b),
{
}

/// A word, what stands behind it, and a byte that is no part of either.
proof fn lemma_word_then(before: Seq<u8>, word: Seq<u8>, gap: Seq<Seq<u8>>, rest: Seq<u8>)
    requires
        is_word(word),
        is_gap(gap),
        rest.len() > 0 ==> !is_word_byte(rest[0]) && !(rest[0] == 0x20 || rest[0] == 0x09 || rest[0]
            == 0x0a || rest[0] == 0x0c || rest[0] == 0x0d || rest[0] == 0x23),
    ensures
        ({
            let input = before + word + gap_bytes(gap) + rest;
            let end = (before.len() + word.len()) as int;
            let at = end + gap_bytes(gap).len();
            &&& name_at(input, before.len() as int) == Ok::<_, SyntaxView>((word, end))
            &&& skipped(input, before.len() as int) == before.len()
            &&& skipped(input, end) == at
            &&& skipped(input, at) == at
        }),
{
    let input = before + word + gap_bytes(gap) + rest;
    let behind = gap_bytes(gap) + rest;
    lemma_gap(before + word, gap, rest);
    assert(input =~= before + word + behind);
    if gap.len() == 0 {
        assert(behind =~= rest);
    } else {
        assert(behind[0] == gap_bytes(gap)[0]);
    }
    law_words_are_names(before, word, behind);
    assert(input[before.len() as int] == word[0]);
    assert(is_word_byte(word[0]));
    lemma_token_begins(input, before.len() as int);
    let at = before.len() + word.len() + gap_bytes(gap).len();
    if rest.len() > 0 {
        assert(input[at as int] == rest[0]);
    }
    lemma_token_begins(input, at as int);
}

/// The part of a setting up to its value.
pub open spec fn setting_head(
    key: Seq<u8>,
    before_equals: Seq<Seq<u8>>,
    before_value: Seq<Seq<u8>>,
) -> Seq<u8> {
    key + gap_bytes(before_equals) + seq![0x3du8] + gap_bytes(before_value)
}

/// The value of a setting is the value behind its equals sign.
#[verifier::rlimit(20)]
proof fn lemma_setting_head(
    before: Seq<u8>,
    key: Seq<u8>,
    before_equals: Seq<Seq<u8>>,
    before_value: Seq<Seq<u8>>,
    rest: Seq<u8>,
)
    requires
        is_word(key),
        is_gap(before_equals),
        is_gap(before_value),
    ensures
        ({
            let head = setting_head(key, before_equals, before_value);
            let input = before + head + rest;
            let at = (before.len() + head.len()) as int;
            &&& skipped(input, before.len() as int) == before.len()
            &&& setting_at(input, before.len() as int) == match value_at(input, at) {
                Err(error) => Err(error),
                Ok((value, pos)) => match punctuation_at(input, pos, 0x3b) {
                    Err(error) => Err(error),
                    Ok(pos) => Ok((key, value, pos)),
                },
            }
        }),
{
    let head = setting_head(key, before_equals, before_value);
    let input = before + head + rest;
    let tail = seq![0x3du8] + gap_bytes(before_value) + rest;
    assert(input =~= before + key + gap_bytes(before_equals) + tail);
    lemma_word_then(before, key, before_equals, tail);
    let equals = before.len() + key.len() + gap_bytes(before_equals).len();
    assert(input[equals as int] == 0x3d);
    let front = before + key + gap_bytes(before_equals) + seq![0x3du8];
    assert(input =~= front + gap_bytes(before_value) + rest);
    lemma_gap(front, before_value, rest);
    lemma_value_same(input, front.len() as int, (before.len() + head.len()) as int);
}

/// The value of a setting is read up to whatever stands between it and its
/// semicolon.
proof fn lemma_value_text(front: Seq<u8>, setting: SettingText, rest: Seq<u8>)
    requires
        setting.ok(),
    ensures
        ({
            let behind = gap_bytes(setting.before_semicolon) + (seq![0x3bu8] + rest);
            value_at(front + setting.value_bytes() + behind, front.len() as int) == Ok::<
                _,
                SyntaxView,
            >((setting.value, (front.len() + setting.value_bytes().len()) as int))
        }),
{
    let gap = gap_bytes(setting.before_semicolon);
    let behind = gap + (seq![0x3bu8] + rest);
    match setting.writing {
        Writing::Bare => {
            lemma_gap(front, setting.before_semicolon, rest);
            if setting.before_semicolon.len() > 0 {
                assert(is_gap_piece(setting.before_semicolon[0]));
                assert(behind[0] == setting.before_semicolon[0][0]);
            } else {
                assert(behind[0] == 0x3b);
            }
            law_bare_values(front, setting.value, behind);
        },
        Writing::Quoted { quote, escapes } => {
            let open = front + seq![quote] + quoted_body(setting.value, escapes);
            assert(front + setting.value_bytes() + behind =~= open + seq![quote] + behind);
            law_quoted_values(front, setting.value, escapes, quote, behind);
        },
    }
}

/// The semicolon of a setting is found behind whatever stands before it.
proof fn lemma_semicolon(through: Seq<u8>, gap: Seq<Seq<u8>>, rest: Seq<u8>)
    requires
        is_gap(gap),
    ensures
        punctuation_at(
            through + (gap_bytes(gap) + (seq![0x3bu8] + rest)),
            through.len() as int,
            0x3b,
        ) == Ok::<_, SyntaxView>((through.len() + gap_bytes(gap).len() + 1) as int),
{
    let input = through + (gap_bytes(gap) + (seq![0x3bu8] + rest));
    assert(input =~= through + gap_bytes(gap) + (seq![0x3bu8] + rest));
    lemma_gap(through, gap, seq![0x3bu8] + rest);
    let at = (through.len() + gap_bytes(gap).len()) as int;
    assert(input[at] == 0x3b);
    lemma_token_begins(input, at);
}

#[verifier::spinoff_prover]
#[verifier::rlimit(30)]
proof fn lemma_setting_text(before: Seq<u8>, setting: SettingText, rest: Seq<u8>)
    requires
        setting.ok(),
    ensures
        setting_at(before + setting.body() + rest, before.len() as int) == Ok::<_, SyntaxView>(
            (setting.key, setting.value, (before.len() + setting.body().len()) as int),
        ),
        skipped(before + setting.body() + rest, before.len() as int) == before.len(),
{
    let input = before + setting.body() + rest;
    let head = setting_head(setting.key, setting.before_equals, setting.before_value);
    let behind = gap_bytes(setting.before_semicolon) + (seq![0x3bu8] + rest);
    let value = setting.value_bytes();
    let front = before + head;
    assert(input =~= front + (value + behind));
    assert(input =~= front + value + behind);
    lemma_setting_head(
        before,
        setting.key,
        setting.before_equals,
        setting.before_value,
        value + behind,
    );
    lemma_value_text(front, setting, rest);
    lemma_semicolon(front + value, setting.before_semicolon, rest);
}

proof fn lemma_settings_same(input: Seq<u8>, pos: int, at: int, above: Settings)
    requires
        0 <= pos <= input.len(),
        0 <= at <= input.len(),
        skipped(input, pos) == skipped(input, at),
    ensures
        settings_at(input, pos, above) == settings_at(input, at, above),
{
}

proof fn lemma_blocks_same(
    input: Seq<u8>,
    pos: int,
    at: int,
    above: Map<Seq<char>, Settings>,
)
    requires
        0 <= pos <= input.len(),
        0 <= at <= input.len(),
        skipped(input, pos) == skipped(input, at),
    ensures
        blocks_at(input, pos, above) == blocks_at(input, at, above),
{
}

/// Settings are read one by one, up to whatever stands behind them.
#[verifier::spinoff_prover]
#[verifier::rlimit(40)]
proof fn lemma_settings_text(
    before: Seq<u8>,
    settings: Seq<SettingText>,
    above: Settings,
    rest: Seq<u8>,
)
    requires
        forall|i: int| 0 <= i < settings.len() ==> (#[trigger] settings[i]).ok(),
    ensures
        settings_at(
            before + settings_bytes(settings) + rest,
            before.len() as int,
            above,
        ) == settings_at(
            before + settings_bytes(settings) + rest,
            (before.len() + settings_bytes(settings).len()) as int,
            settings_map(plain_settings(settings), above),
        ),
    decreases settings.len(),
{
    let input = before + settings_bytes(settings) + rest;
    let pos = before.len() as int;
    if settings.len() > 0 {
        let first = settings[0];
        let others = settings.skip(1);
        let body = first.body();
        let gap = gap_bytes(first.behind);
        let behind = gap + (settings_bytes(others) + rest);
        assert(input =~= before + body + behind);
        assert(first.ok());
        lemma_setting_text(before, first, behind);
        assert(input[pos] == first.key[0]);
        assert(is_word_byte(first.key[0]));
        let middle = before + body;
        assert(input =~= middle + gap + (settings_bytes(others) + rest));
        lemma_gap(middle, first.behind, settings_bytes(others) + rest);
        let front = middle + gap;
        let now = above.insert(decode_utf8(first.key), decode_utf8(first.value));
        lemma_settings_same(input, middle.len() as int, front.len() as int, now);
        assert forall|i: int| 0 <= i < others.len() implies (#[trigger] others[i]).ok() by {
            assert(others[i] == settings[i + 1]);
        }
        assert(input =~= front + settings_bytes(others) + rest);
        lemma_settings_text(front, others, now, rest);
        assert(plain_settings(settings).skip(1) =~= plain_settings(others));
        assert(plain_settings(settings)[0] == (first.key, first.value));
    }
}

/// A block is read as its settings behind its opening brace.
#[verifier::rlimit(20)]
proof fn lemma_block_head(before: Seq<u8>, block: BlockText, rest: Seq<u8>)
    requires
        is_word(block.name),
        is_gap(block.before_brace),
        is_gap(block.behind_brace),
    ensures
        ({
            let input = before + block.head() + rest;
            let at = (before.len() + block.head().len()) as int;
            &&& skipped(input, before.len() as int) == before.len()
            &&& block_at(input, before.len() as int) == match settings_at(input, at, Map::empty()) {
                Err(error) => Err(error),
                Ok((settings, pos)) => Ok((block.name, settings, pos)),
            }
        }),
{
    let input = before + block.head() + rest;
    let tail = seq![0x7bu8] + gap_bytes(block.behind_brace) + rest;
    assert(input =~= before + block.name + gap_bytes(block.before_brace) + tail);
    lemma_word_then(before, block.name, block.before_brace, tail);
    let brace = before.len() + block.name.len() + gap_bytes(block.before_brace).len();
    assert(input[brace as int] == 0x7b);
    let front = before + block.name + gap_bytes(block.before_brace) + seq![0x7bu8];
    assert(input =~= front + gap_bytes(block.behind_brace) + rest);
    lemma_gap(front, block.behind_brace, rest);
    lemma_settings_same(
        input,
        front.len() as int,
        (before.len() + block.head().len()) as int,
        Map::empty(),
    );
}

#[verifier::rlimit(20)]
proof fn lemma_block_text(before: Seq<u8>, block: BlockText, rest: Seq<u8>)
    requires
        block.ok(),
    ensures
        block_at(before + block.body() + rest, before.len() as int) == Ok::<_, SyntaxView>(
            (
                block.name,
                settings_map(plain_settings(block.settings), Map::empty()),
                (before.len() + block.body().len()) as int,
            ),
        ),
        skipped(before + block.body() + rest, before.len() as int) == before.len(),
{
    let input = before + block.body() + rest;
    let written = settings_bytes(block.settings);
    let tail = written + (seq![0x7du8] + rest);
    assert(input =~= before + block.head() + tail);
    lemma_block_head(before, block, tail);
    let front = before + block.head();
    assert(input =~= front + written + (seq![0x7du8] + rest));
    lemma_settings_text(front, block.settings, Map::empty(), seq![0x7du8] + rest);
    let brace = (front.len() + written.len()) as int;
    assert(input[brace] == 0x7d);
    lemma_token_begins(input, brace);
}

/// Blocks are read one by one, up to whatever stands behind them.
#[verifier::spinoff_prover]
#[verifier::rlimit(40)]
proof fn lemma_blocks_text(
    before: Seq<u8>,
    blocks: Seq<BlockText>,
    above: Map<Seq<char>, Settings>,
    rest: Seq<u8>,
)
    requires
        forall|i: int| 0 <= i < blocks.len() ==> (#[trigger] blocks[i]).ok(),
    ensures
        blocks_at(before + blocks_bytes(blocks) + rest, before.len() as int, above) == blocks_at(
            before + blocks_bytes(blocks) + rest,
            (before.len() + blocks_bytes(blocks).len()) as int,
            blocks_map(plain_blocks(blocks), above),
        ),
    decreases blocks.len(),
{
    let input = before + blocks_bytes(blocks) + rest;
    if blocks.len() > 0 {
        let first = blocks[0];
        let others = blocks.skip(1);
        let body = first.body();
        let gap = gap_bytes(first.behind);
        let behind = gap + (blocks_bytes(others) + rest);
        assert(input =~= before + body + behind);
        assert(first.ok());
        lemma_block_text(before, first, behind);
        let middle = before + body;
        assert(input =~= middle + gap + (blocks_bytes(others) + rest));
        lemma_gap(middle, first.behind, blocks_bytes(others) + rest);
        let front = middle + gap;
        let kept = settings_map(plain_settings(first.settings), Map::empty());
        let now = above.insert(decode_utf8(first.name), kept);
        lemma_blocks_same(input, middle.len() as int, front.len() as int, now);
        assert forall|i: int| 0 <= i < others.len() implies (#[trigger] others[i]).ok() by {
            assert(others[i] == blocks[i + 1]);
        }
        assert(input =~= front + blocks_bytes(others) + rest);
        lemma_blocks_text(front, others, now, rest);
        assert(plain_blocks(blocks).skip(1) =~= plain_blocks(others));
        assert(plain_blocks(blocks)[0] == (first.name, plain_settings(first.settings)));
    }
}

/// Whether a text ends in nothing, or in a comment without an end of line.
pub open spec fn is_ending(ending: Seq<u8>) -> bool {
    ending.len() == 0 || (ending[0] == 0x23 && forall|i: int|
        0 <= i < ending.len() ==> #[trigger] ending[i] != 0x0a)
}

/// Any of the bytes 0x20, 0x09, 0x0a, 0x0c and 0x0d, and comments, may stand
/// before, between and behind the tokens of a configuration, and values may be
/// written with either quote or without: the blocks are those whose names, keys
/// and values are written, and of two with one name the later holds.
pub proof fn law_spacing_and_quoting_are_free(
    input: Seq<char>,
    lead: Seq<Seq<u8>>,
    blocks: Seq<BlockText>,
    ending: Seq<u8>,
)
    requires
        encode_utf8(input) == gap_bytes(lead) + blocks_bytes(blocks) + ending,
        is_gap(lead),
        forall|i: int| 0 <= i < blocks.len() ==> (#[trigger] blocks[i]).ok(),
        is_ending(ending),
    ensures
        blocks_of(input) == Ok::<_, SyntaxView>(blocks_map(plain_blocks(blocks), Map::empty())),
{
    let bytes = encode_utf8(input);
    let none = Seq::<u8>::empty();
    let front = gap_bytes(lead);
    assert(bytes =~= none + front + (blocks_bytes(blocks) + ending));
    lemma_gap(none, lead, blocks_bytes(blocks) + ending);
    lemma_blocks_same(bytes, 0, front.len() as int, Map::empty());
    lemma_blocks_text(front, blocks, Map::empty(), ending);
    let end = (front.len() + blocks_bytes(blocks).len()) as int;
    if ending.len() > 0 {
        assert forall|i: int| end <= i < bytes.len() implies #[trigger] bytes[i] != 0x0a by {
            assert(bytes[i] == ending[i - end]);
        }
        assert(bytes[end] == ending[0]);
        law_white_space_and_comments(bytes, end, 0);
    } else {
        lemma_token_begins(bytes, end);
    }
}

/// Two texts with the same names, keys and values have the same blocks, however
/// they are spaced, commented and quoted.
pub proof fn law_writing_does_not_matter(
    one: Seq<char>,
    one_lead: Seq<Seq<u8>>,
    one_blocks: Seq<BlockText>,
    other: Seq<char>,
    other_lead: Seq<Seq<u8>>,
    other_blocks: Seq<BlockText>,
)
    requires
        encode_utf8(one) == gap_bytes(one_lead) + blocks_bytes(one_blocks),
        encode_utf8(other) == gap_bytes(other_lead) + blocks_bytes(other_blocks),
        is_gap(one_lead),
        is_gap(other_lead),
        forall|i: int| 0 <= i < one_blocks.len() ==> (#[trigger] one_blocks[i]).ok(),
        forall|i: int| 0 <= i < other_blocks.len() ==> (#[trigger] other_blocks[i]).ok(),
        plain_blocks(one_blocks) == plain_blocks(other_blocks),
    ensures
        blocks_of(one) == blocks_of(other),
        blocks_of(one) is Ok,
{
    let none = Seq::<u8>::empty();
    assert(gap_bytes(one_lead) + blocks_bytes(one_blocks) + none =~= encode_utf8(one));
    assert(gap_bytes(other_lead) + blocks_bytes(other_blocks) + none =~= encode_utf8(other));
    law_spacing_and_quoting_are_free(one, one_lead, one_blocks, none);
    law_spacing_and_quoting_are_free(other, other_lead, other_blocks, none);
}

/// Behind any number of blocks the text is read on from where they end.
proof fn lemma_behind_blocks(
    input: Seq<char>,
    lead: Seq<Seq<u8>>,
    blocks: Seq<BlockText>,
    behind: Seq<u8>,
)
    requires
        is_gap(lead),
        forall|i: int| 0 <= i < blocks.len() ==> (#[trigger] blocks[i]).ok(),
        encode_utf8(input) == gap_bytes(lead) + blocks_bytes(blocks) + behind,
    ensures
        blocks_of(input) == blocks_at(
            encode_utf8(input),
            (gap_bytes(lead) + blocks_bytes(blocks)).len() as int,
            blocks_map(plain_blocks(blocks), Map::empty()),
        ),
{
    let bytes = encode_utf8(input);
    let none = Seq::<u8>::empty();
    let gap = gap_bytes(lead);
    let written = blocks_bytes(blocks);
    assert(bytes =~= none + gap + (written + behind));
    lemma_gap(none, lead, written + behind);
    lemma_blocks_same(bytes, 0, gap.len() as int, Map::empty());
    lemma_blocks_text(gap, blocks, Map::empty(), behind);
}

/// Whether something begins with neither white space nor a comment.
pub open spec fn begins_plainly(rest: Seq<u8>) -> bool {
    rest.len() > 0 ==> !(rest[0] == 0x20 || rest[0] == 0x09 || rest[0] == 0x0a || rest[0] == 0x0c
        || rest[0] == 0x0d || rest[0] == 0x23)
}

/// Behind any number of blocks, what cannot begin a word is an error at its
/// place.
pub proof fn law_stray_bytes_are_refused(
    input: Seq<char>,
    lead: Seq<Seq<u8>>,
    blocks: Seq<BlockText>,
    rest: Seq<u8>,
)
    requires
        is_gap(lead),
        forall|i: int| 0 <= i < blocks.len() ==> (#[trigger] blocks[i]).ok(),
        encode_utf8(input) == gap_bytes(lead) + blocks_bytes(blocks) + rest,
        begins_plainly(rest),
        rest.len() > 0,
        !is_word_byte(rest[0]),
    ensures
        blocks_of(input) == Err::<Map<Seq<char>, Settings>, _>(
            SyntaxView {
                offset: (gap_bytes(lead) + blocks_bytes(blocks)).len() as int,
                message: "expected identifier"@,
            },
        ),
{
    let bytes = encode_utf8(input);
    let none = Seq::<u8>::empty();
    let front = gap_bytes(lead) + blocks_bytes(blocks);
    lemma_behind_blocks(input, lead, blocks, rest);
    assert(bytes[front.len() as int] == rest[0]);
    lemma_token_begins(bytes, front.len() as int);
    assert(bytes =~= front + none + rest);
    law_words_are_names(front, none, rest);
}

/// Behind any number of blocks, a name without an opening brace is an error
/// where the brace is due.
#[verifier::spinoff_prover]
#[verifier::rlimit(40)]
pub proof fn law_blocks_need_a_brace(
    input: Seq<char>,
    lead: Seq<Seq<u8>>,
    blocks: Seq<BlockText>,
    name: Seq<u8>,
    gap: Seq<Seq<u8>>,
    rest: Seq<u8>,
)
    requires
        is_gap(lead),
        forall|i: int| 0 <= i < blocks.len() ==> (#[trigger] blocks[i]).ok(),
        is_word(name),
        is_gap(gap),
        encode_utf8(input) == gap_bytes(lead) + blocks_bytes(blocks) + name + gap_bytes(gap) + rest,
        begins_plainly(rest),
        rest.len() > 0 ==> rest[0] != 0x7b && !is_word_byte(rest[0]),
    ensures
        blocks_of(input) == Err::<Map<Seq<char>, Settings>, _>(
            SyntaxView {
                offset: (gap_bytes(lead) + blocks_bytes(blocks) + name + gap_bytes(
                    gap,
                )).len() as int,
                message: "expected '{'"@,
            },
        ),
{
    let bytes = encode_utf8(input);
    let front = gap_bytes(lead) + blocks_bytes(blocks);
    let named = front + name + gap_bytes(gap);
    assert(bytes =~= front + (name + gap_bytes(gap) + rest));
    lemma_behind_blocks(input, lead, blocks, name + gap_bytes(gap) + rest);
    lemma_word_then(front, name, gap, rest);
    law_punctuation_is_required(bytes, named.len() as int);
    lemma_value_same(bytes, (front.len() + name.len()) as int, named.len() as int);
}

/// Behind any number of blocks and of settings in a block, the first setting
/// with an error decides, and so does a block that is not closed.
#[verifier::spinoff_prover]
#[verifier::rlimit(40)]
pub proof fn law_first_error_decides(
    input: Seq<char>,
    lead: Seq<Seq<u8>>,
    blocks: Seq<BlockText>,
    open: BlockText,
    rest: Seq<u8>,
)
    requires
        is_gap(lead),
        forall|i: int| 0 <= i < blocks.len() ==> (#[trigger] blocks[i]).ok(),
        open.ok(),
        encode_utf8(input) == gap_bytes(lead) + blocks_bytes(blocks) + open.head()
            + settings_bytes(open.settings) + rest,
        begins_plainly(rest),
        rest.len() > 0 ==> rest[0] != 0x7d,
    ensures
        ({
            let at = (gap_bytes(lead) + blocks_bytes(blocks) + open.head() + settings_bytes(
                open.settings,
            )).len() as int;
            &&& rest.len() == 0 || !is_word_byte(rest[0]) ==> blocks_of(input) == Err::<
                Map<Seq<char>, Settings>,
                _,
            >(SyntaxView { offset: at, message: "expected identifier"@ })
            &&& setting_at(encode_utf8(input), at) matches Err(wrong) ==> blocks_of(input)
                == Err::<Map<Seq<char>, Settings>, _>(wrong)
        }),
{
    let bytes = encode_utf8(input);
    let none = Seq::<u8>::empty();
    let front = gap_bytes(lead) + blocks_bytes(blocks);
    let settings = settings_bytes(open.settings);
    let inside = front + open.head() + settings;
    let at = inside.len() as int;
    assert(bytes =~= front + (open.head() + settings + rest));
    lemma_behind_blocks(input, lead, blocks, open.head() + settings + rest);
    assert(bytes =~= front + open.head() + (settings + rest));
    lemma_block_head(front, open, settings + rest);
    assert(bytes =~= (front + open.head()) + settings + rest);
    lemma_settings_text(front + open.head(), open.settings, Map::empty(), rest);
    if rest.len() > 0 {
        assert(bytes[at] == rest[0]);
    }
    lemma_token_begins(bytes, at);
    assert(bytes =~= inside + none + rest);
    if rest.len() == 0 || !is_word_byte(rest[0]) {
        law_words_are_names(inside, none, rest);
    }
}

/// A setting needs its equals sign, its value and its semicolon, and says which
/// of them is missing, at the place where it is due.
#[verifier::spinoff_prover]
#[verifier::rlimit(40)]
pub proof fn law_incomplete_settings(before: Seq<u8>, setting: SettingText, rest: Seq<u8>)
    requires
        setting.ok(),
        rest.len() > 0 ==> !(rest[0] == 0x20 || rest[0] == 0x09 || rest[0] == 0x0a || rest[0] == 0x0c
            || rest[0] == 0x0d || rest[0] == 0x23),
    ensures
        ({
            let pos = before.len() as int;
            let error = |offset: int, message: Seq<char>|
                Err::<(Seq<u8>, Seq<u8>, int), _>(SyntaxView { offset, message });
            let keyed = before + setting.key + gap_bytes(setting.before_equals);
            let headed = before + setting_head(
                setting.key,
                setting.before_equals,
                setting.before_value,
            );
            let valued = headed + setting.value_bytes() + gap_bytes(setting.before_semicolon);
            &&& rest.len() == 0 || (rest[0] != 0x3d && !is_word_byte(rest[0])) ==> setting_at(
                keyed + rest,
                pos,
            ) == error(keyed.len() as int, "expected '='"@)
            &&& rest.len() == 0 || rest[0] == 0x3b ==> setting_at(headed + rest, pos) == error(
                headed.len() as int,
                "expected value"@,
            )
            &&& setting.writing is Quoted && (rest.len() == 0 || rest[0] != 0x3b) ==> setting_at(
                valued + rest,
                pos,
            ) == error(valued.len() as int, "expected ';'"@)
        }),
{
    let none = Seq::<u8>::empty();
    let keyed = before + setting.key + gap_bytes(setting.before_equals);
    let head = setting_head(setting.key, setting.before_equals, setting.before_value);
    let headed = before + head;
    let gap = gap_bytes(setting.before_semicolon);
    let through = headed + setting.value_bytes();
    let valued = through + gap;
    if rest.len() == 0 || (rest[0] != 0x3d && !is_word_byte(rest[0])) {
        let input = keyed + rest;
        lemma_word_then(before, setting.key, setting.before_equals, rest);
        law_punctuation_is_required(input, keyed.len() as int);
        lemma_value_same(input, (before.len() + setting.key.len()) as int, keyed.len() as int);
    }
    if rest.len() == 0 || rest[0] == 0x3b {
        lemma_setting_head(
            before,
            setting.key,
            setting.before_equals,
            setting.before_value,
            rest,
        );
        assert(headed + rest =~= headed + none + rest);
        law_bare_values(headed, none, rest);
    }
    if setting.writing is Quoted && (rest.len() == 0 || rest[0] != 0x3b) {
        let input = valued + rest;
        let tail = setting.value_bytes() + (gap + rest);
        assert(input =~= before + head + tail);
        lemma_setting_head(
            before,
            setting.key,
            setting.before_equals,
            setting.before_value,
            tail,
        );
        if let Writing::Quoted { quote, escapes } = setting.writing {
            let open = headed + seq![quote] + quoted_body(setting.value, escapes);
            assert(input =~= open + seq![quote] + (gap + rest));
            law_quoted_values(headed, setting.value, escapes, quote, gap + rest);
        }
        lemma_gap(through, setting.before_semicolon, rest);
        if rest.len() > 0 {
            assert(input[valued.len() as int] == rest[0]);
        }
        lemma_token_begins(input, valued.len() as int);
        law_punctuation_is_required(input, valued.len() as int);
        lemma_value_same(input, through.len() as int, valued.len() as int);
    }
}

} // verus!
