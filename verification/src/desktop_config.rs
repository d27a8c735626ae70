//! Desktop configuration: command line flags, environment flags, platform
//! support and the reasoning display mode.
use crate::strings::{
    before, behind, bool_value, digits_value, find, has_prefix, is_number_upto, lines, parse_bool,
    parse_usize, same_text, split_once, strip_of, stripped, text_before, text_of, to_ascii_lower,
    trim, trimmed, white_space, without_plus, without_prefix, without_suffix, CharClass,
};
use vstd::prelude::*;
use vstd::string::StrSliceExecFns;

verus! {

/// The flag that starts the streaming benchmark.
pub const BENCHMARK_FLAG: &'static str = "--stream-e2e-benchmark";

/// The same flag with its count in one argument.
pub const BENCHMARK_FLAG_WITH_COUNT: &'static str = "--stream-e2e-benchmark=";

/// The reasoning display mode the desktop asks for when nothing else is said:
/// live thinking that collapses once a tool runs or the answer commits.
pub const DESKTOP_DEFAULT_REASONING_DISPLAY: &'static str = "current";

/// The count that a text gives, where it gives one.
pub open spec fn count_in(text: Seq<char>) -> Option<int> {
    if is_number_upto(text, usize::MAX as int) {
        Some(digits_value(without_plus(text)))
    } else {
        None
    }
}

/// The count that the argument at `at` asks for: its own behind the equals
/// sign, or, for the bare flag, that of the argument behind it or the default.
pub open spec fn count_at(args: Seq<Seq<char>>, at: int, default: int) -> Option<int> {
    let arg = args[at];
    let prefix = BENCHMARK_FLAG_WITH_COUNT@;
    if prefix.is_prefix_of(arg) && count_in(arg.skip(prefix.len() as int)) is Some {
        count_in(arg.skip(prefix.len() as int))
    } else if arg == BENCHMARK_FLAG@ {
        if at + 1 < args.len() && count_in(args[at + 1]) is Some {
            count_in(args[at + 1])
        } else {
            Some(default)
        }
    } else {
        None
    }
}

/// The count that the first argument from `from` on that asks for one asks for.
pub open spec fn count_from(args: Seq<Seq<char>>, from: int, default: int) -> Option<int>
    decreases args.len() - from,
{
    if from < 0 || from >= args.len() {
        None
    } else if count_at(args, from, default) is Some {
        count_at(args, from, default)
    } else {
        count_from(args, from + 1, default)
    }
}

/// The count that the arguments ask for, where a batch forwards at most
/// `max_raw_events`.
pub open spec fn benchmark_count(args: Seq<Seq<char>>, max_raw_events: int) -> Option<int> {
    count_from(args, 0, max_raw_events * 6)
}

/// A text reads as switched off.
pub open spec fn reads_as_off(text: Seq<char>) -> bool {
    let word = crate::strings::ascii_lower(trimmed(text));
    ||| word == ""@
    ||| word == "0"@
    ||| word == "false"@
    ||| word == "off"@
    ||| word == "no"@
}

/// A text asks for every frame to be logged.
pub open spec fn reads_as_all(text: Seq<char>) -> bool {
    let word = crate::strings::ascii_lower(trimmed(text));
    word == "all"@ || word == "trace"@
}

/// The reasoning display mode that a word stands for.
pub open spec fn mode_of(text: Seq<char>) -> Option<Seq<char>> {
    let word = crate::strings::ascii_lower(trimmed(text));
    if word == "off"@ || word == "none"@ || word == "false"@ || word == "0"@ || word == "no"@ {
        Some("off"@)
    } else if word == "full"@ || word == "all"@ || word == "true"@ || word == "1"@ || word
        == "yes"@ || word == "on"@ {
        Some("full"@)
    } else if word == "current"@ || word == "live"@ || word == "ephemeral"@ || word
        == "collapse"@ {
        Some("current"@)
    } else {
        None
    }
}

/// What a configuration text says about reasoning: the last mode that was set,
/// if it is one, and the last value of the older switch, if it is one.
pub struct Reading {
    pub explicit_mode: Option<Seq<char>>,
    pub show_thinking: Option<bool>,
}

/// Nothing was said.
pub open spec fn silent() -> Reading {
    Reading { explicit_mode: None, show_thinking: None }
}

/// A line that is a comment, or sets nothing.
pub open spec fn is_inert(line: Seq<char>) -> bool {
    let line = trimmed(line);
    ||| line.len() > 0 && line[0] == '#'
    ||| find(line, '=') == line.len()
}

/// The key that a line sets.
pub open spec fn key_in(line: Seq<char>) -> Seq<char> {
    trimmed(before(trimmed(line), '='))
}

/// The value that a line sets, without a trailing comment and without quotes.
pub open spec fn value_in(line: Seq<char>) -> Seq<char> {
    let value = trimmed(before(behind(trimmed(line), '='), '#'));
    stripped(stripped(value, CharClass::Only('"')), CharClass::Only('\''))
}

/// What is known after one more line.
pub open spec fn after_line(reading: Reading, line: Seq<char>) -> Reading {
    if is_inert(line) {
        reading
    } else if key_in(line) == "reasoning_display"@ {
        Reading { explicit_mode: mode_of(value_in(line)), ..reading }
    } else if key_in(line) == "show_thinking"@ {
        Reading { show_thinking: bool_value(value_in(line)), ..reading }
    } else {
        reading
    }
}

/// What is known after `lines`, read from the first to the last.
pub open spec fn after_lines(lines: Seq<Seq<char>>) -> Reading
    decreases lines.len(),
{
    if lines.len() == 0 {
        silent()
    } else {
        after_line(after_lines(lines.drop_last()), lines.last())
    }
}

/// The mode that a reading comes to. An explicit mode wins; the older switch is
/// only a fallback.
pub open spec fn mode_read(reading: Reading) -> Option<Seq<char>> {
    match (reading.explicit_mode, reading.show_thinking) {
        (Some(mode), _) => Some(mode),
        (None, Some(true)) => Some("full"@),
        (None, Some(false)) => Some("off"@),
        (None, None) => None,
    }
}

/// The mode that a configuration text comes to.
pub open spec fn configured(text: Seq<char>) -> Option<Seq<char>> {
    mode_read(after_lines(lines(text)))
}

/// The effective mode: a valid override, else what the configuration says, else
/// the default.
pub open spec fn resolved(
    env_override: Option<Seq<char>>,
    config_text: Option<Seq<char>>,
) -> Seq<char> {
    let override_mode = match env_override {
        Some(text) => mode_of(text),
        None => None,
    };
    let config_mode = match config_text {
        Some(text) => configured(text),
        None => None,
    };
    match (override_mode, config_mode) {
        (Some(mode), _) => mode,
        (None, Some(mode)) => mode,
        (None, None) => DESKTOP_DEFAULT_REASONING_DISPLAY@,
    }
}

/// How many raw events the streaming benchmark is asked to run, where the
/// arguments ask for it. A bare flag without a count asks for six times
/// `max_raw_events`.
pub fn stream_e2e_benchmark_raw_events(args: &[String], max_raw_events: usize) -> (count: Option<
    usize,
>)
    requires
        max_raw_events * 6 <= usize::MAX,
    ensures
        match count {
            Some(n) => count_from(crate::strings::texts(args@), 0, max_raw_events * 6) == Some(
                n as int,
            ),
            None => count_from(crate::strings::texts(args@), 0, max_raw_events * 6) is None,
        },
        match count {
            Some(n) => benchmark_count(crate::strings::texts(args@), max_raw_events as int) == Some(
                n as int,
            ),
            None => benchmark_count(crate::strings::texts(args@), max_raw_events as int) is None,
        },
{
    let ghost views = crate::strings::texts(args@);
    let ghost default = max_raw_events * 6;
    let mut i: usize = 0;
    while i < args.len()
        invariant
            i <= args.len(),
            max_raw_events * 6 <= usize::MAX,
            default == max_raw_events * 6,
            views == crate::strings::texts(args@),
            count_from(views, 0, default) == count_from(views, i as int, default),
        decreases args.len() - i,
    {
        let arg = args[i].as_str();
        assert(views[i as int] == arg@);
        if has_prefix(arg, BENCHMARK_FLAG_WITH_COUNT) {
            let len = arg.unicode_len();
            let rest = arg.substring_char(BENCHMARK_FLAG_WITH_COUNT.unicode_len(), len);
            assert(rest@ =~= arg@.skip(BENCHMARK_FLAG_WITH_COUNT@.len() as int));
            if let Some(count) = parse_usize(rest) {
                return Some(count);
            }
        }
        if same_text(arg, BENCHMARK_FLAG) {
            if i + 1 < args.len() {
                assert(views[i + 1] == args@[i + 1]@);
                if let Some(count) = parse_usize(args[i + 1].as_str()) {
                    return Some(count);
                }
            }
            return Some(max_raw_events * 6);
        }
        i = i + 1;
    }
    None
}

/// Whether the text of an environment flag switches it on.
pub fn env_flag_text_enabled(value: &str) -> (enabled: bool)
    ensures
        enabled == !reads_as_off(value@),
{
    let lowered = to_ascii_lower(trim(value));
    let word = lowered.as_str();
    !(same_text(word, "") || same_text(word, "0") || same_text(word, "false") || same_text(
        word,
        "off",
    ) || same_text(word, "no"))
}

/// Whether frames are to be profiled.
pub fn desktop_frame_profile_enabled(mode: Option<&str>) -> (enabled: bool)
    ensures
        enabled == (mode matches Some(text) && !reads_as_off(text@)),
{
    match mode {
        Some(text) => env_flag_text_enabled(text),
        None => false,
    }
}

/// Whether every profiled frame is to be logged.
pub fn desktop_frame_profile_log_all(mode: Option<&str>) -> (all: bool)
    ensures
        all == (mode matches Some(text) && reads_as_all(text@)),
{
    match mode {
        Some(text) => {
            let lowered = to_ascii_lower(trim(text));
            let word = lowered.as_str();
            same_text(word, "all") || same_text(word, "trace")
        },
        None => false,
    }
}

/// The platforms the desktop tells apart.
#[derive(Clone, Copy, Debug, PartialEq, Eq, Structural)]
pub enum DesktopPlatform {
    Linux,
    Macos,
    Windows,
    Other,
}

/// What a user of `platform` is warned of at startup.
pub fn desktop_platform_support_warning(platform: DesktopPlatform) -> (warning: Option<
    &'static str,
>)
    ensures
        match platform {
            DesktopPlatform::Linux | DesktopPlatform::Macos => warning is None,
            DesktopPlatform::Windows => text_of(warning) == Some(
                "Windows desktop support is experimental; terminal spawning, power inhibit, and GPU backend behavior may differ from Linux/macOS"@,
            ),
            DesktopPlatform::Other => text_of(warning) == Some(
                "this platform is not officially supported by jcode-desktop; startup will continue on a best-effort GPU backend"@,
            ),
        },
{
    match platform {
        DesktopPlatform::Linux => None,
        DesktopPlatform::Macos => None,
        DesktopPlatform::Windows => Some(
            "Windows desktop support is experimental; terminal spawning, power inhibit, and GPU backend behavior may differ from Linux/macOS",
        ),
        DesktopPlatform::Other => Some(
            "this platform is not officially supported by jcode-desktop; startup will continue on a best-effort GPU backend",
        ),
    }
}

/// The display mode that a word stands for, if it stands for one.
pub fn normalized_reasoning_display_mode(value: &str) -> (mode: Option<&'static str>)
    ensures
        text_of(mode) == mode_of(value@),
{
    let lowered = to_ascii_lower(trim(value));
    let word = lowered.as_str();
    if same_text(word, "off") || same_text(word, "none") || same_text(word, "false") || same_text(
        word,
        "0",
    ) || same_text(word, "no") {
        Some("off")
    } else if same_text(word, "full") || same_text(word, "all") || same_text(word, "true")
        || same_text(word, "1") || same_text(word, "yes") || same_text(word, "on") {
        Some("full")
    } else if same_text(word, "current") || same_text(word, "live") || same_text(
        word,
        "ephemeral",
    ) || same_text(word, "collapse") {
        Some("current")
    } else {
        None
    }
}

/// The display mode that a configuration text sets, if it sets one.
pub fn configured_reasoning_display(raw: &str) -> (mode: Option<String>)
    ensures
        crate::strings::string_of(mode) == configured(raw@),
{
    let mut explicit_mode: Option<&'static str> = None;
    let mut show_thinking: Option<bool> = None;
    let mut rest = raw;
    let mut more = true;
    let ghost mut done: Seq<Seq<char>> = Seq::empty();
    while more
        invariant
            more ==> done + lines(rest@) == lines(raw@),
            !more ==> done == lines(raw@),
            text_of(explicit_mode) == after_lines(done).explicit_mode,
            show_thinking == after_lines(done).show_thinking,
        decreases (if more { 1int } else { 0int }), rest@.len(),
    {
        let line: &str;
        let ghost left = rest@;
        match split_once(rest, '\n') {
            Some((head, tail)) => {
                line = head;
                rest = tail;
                proof {
                    crate::strings::lemma_find(left, '\n');
                    assert(done.push(line@) + lines(rest@) =~= done + lines(left));
                }
            },
            None => {
                line = rest;
                more = false;
                assert(done.push(line@) =~= done + lines(left));
            },
        }
        proof {
            assert(done.push(line@).drop_last() =~= done);
            done = done.push(line@);
        }
        let line = trim(line);
        if !has_prefix(line, "#") {
            assert(!(line@.len() > 0 && line@[0] == '#')) by {
                reveal_strlit("#");
                if line@.len() > 0 && line@[0] == '#' {
                    assert("#"@ =~= line@.subrange(0, 1));
                }
            }
            if let Some((key, value)) = split_once(line, '=') {
                let key = trim(key);
                let value = strip_of(
                    strip_of(trim(text_before(value, '#')), CharClass::Only('"')),
                    CharClass::Only('\''),
                );
                if same_text(key, "reasoning_display") {
                    explicit_mode = normalized_reasoning_display_mode(value);
                } else if same_text(key, "show_thinking") {
                    show_thinking = parse_bool(value);
                }
            }
        } else {
            assert(line@[0] == '#') by {
                reveal_strlit("#");
                assert("#"@[0] == line@.subrange(0, 1)[0]);
            }
        }
    }
    match explicit_mode {
        Some(mode) => Some(mode.to_owned()),
        None => match show_thinking {
            Some(true) => Some("full".to_owned()),
            Some(false) => Some("off".to_owned()),
            None => None,
        },
    }
}

/// The effective thinking display mode: a valid override wins, then the
/// configuration, then the desktop's default.
pub fn resolve_reasoning_display_mode(
    env_override: Option<&str>,
    config_text: Option<&str>,
) -> (mode: String)
    ensures
        mode@ == resolved(text_of(env_override), text_of(config_text)),
{
    if let Some(text) = env_override {
        if let Some(mode) = normalized_reasoning_display_mode(text) {
            return mode.to_owned();
        }
    }
    if let Some(text) = config_text {
        if let Some(mode) = configured_reasoning_display(text) {
            return mode;
        }
    }
    DESKTOP_DEFAULT_REASONING_DISPLAY.to_owned()
}

/// Every mode is one of three, and each of the three stands for itself.
pub proof fn law_modes_are_off_full_and_current(text: Seq<char>)
    ensures
        mode_of(text) is Some ==> mode_of(text) == Some("off"@) || mode_of(text) == Some("full"@)
            || mode_of(text) == Some("current"@),
        mode_of(text) matches Some(mode) ==> mode_of(mode) == Some(mode),
{
    reveal_strlit("off");
    reveal_strlit("full");
    reveal_strlit("current");
    lemma_small_word_reads_as_itself("off"@);
    lemma_small_word_reads_as_itself("full"@);
    lemma_small_word_reads_as_itself("current"@);
    reveal_strlit("none");
    reveal_strlit("false");
    reveal_strlit("0");
    reveal_strlit("no");
    reveal_strlit("all");
    reveal_strlit("true");
    reveal_strlit("1");
    reveal_strlit("yes");
    reveal_strlit("on");
    assert("full"@[0] == 'f' && "false"@[0] == 'f');
    assert("full"@.len() == 4 && "none"@.len() == 4 && "none"@[0] == 'n');
    assert("current"@.len() == 7 && "off"@.len() == 3 && "yes"@.len() == 3);
}

/// A word of ASCII small letters is its own trimmed small-letter form.
proof fn lemma_small_word_reads_as_itself(word: Seq<char>)
    requires
        word.len() > 0,
        forall|i: int| 0 <= i < word.len() ==> 'a' <= #[trigger] word[i] <= 'z',
    ensures
        crate::strings::ascii_lower(trimmed(word)) == word,
{
    assert(!white_space(word[0]));
    assert(!white_space(word[word.len() - 1]));
    assert(trimmed(word) == word);
    assert(crate::strings::ascii_lower(word) =~= word);
}

/// The effective mode is always one of three.
pub proof fn law_resolved_mode_is_known(
    env_override: Option<Seq<char>>,
    config_text: Option<Seq<char>>,
)
    ensures
        ({
            let mode = resolved(env_override, config_text);
            mode == "off"@ || mode == "full"@ || mode == "current"@
        }),
{
    if let Some(text) = env_override {
        law_modes_are_off_full_and_current(text);
    }
    if let Some(text) = config_text {
        lemma_explicit_mode_is_known(lines(text));
    }
}

proof fn lemma_explicit_mode_is_known(lines: Seq<Seq<char>>)
    ensures
        after_lines(lines).explicit_mode matches Some(mode) ==> mode == "off"@ || mode == "full"@
            || mode == "current"@,
    decreases lines.len(),
{
    if lines.len() > 0 {
        lemma_explicit_mode_is_known(lines.drop_last());
        law_modes_are_off_full_and_current(value_in(lines.last()));
    }
}

/// An override that stands for a mode wins over any configuration; one that
/// stands for none counts as no override at all.
pub proof fn law_override_wins_or_falls_through(text: Seq<char>, config_text: Option<Seq<char>>)
    ensures
        mode_of(text) matches Some(mode) ==> resolved(Some(text), config_text) == mode,
        mode_of(text) is None ==> resolved(Some(text), config_text) == resolved(None, config_text),
{
}

/// An explicit mode wins whatever the older switch says, and the switch counts
/// only where no mode is set.
pub proof fn law_switch_is_only_a_fallback(reading: Reading)
    ensures
        reading.explicit_mode is Some ==> mode_read(reading) == reading.explicit_mode,
        reading.explicit_mode is None ==> (mode_read(reading) is Some
            <==> reading.show_thinking is Some),
{
}

/// A configuration that sets nothing leaves the default in force.
pub proof fn law_silence_means_the_default(config: Seq<char>)
    requires
        forall|i: int| 0 <= i < lines(config).len() ==> is_inert(#[trigger] lines(config)[i]),
    ensures
        resolved(None, Some(config)) == DESKTOP_DEFAULT_REASONING_DISPLAY@,
        resolved(None, None) == DESKTOP_DEFAULT_REASONING_DISPLAY@,
{
    lemma_inert_lines_say_nothing(lines(config));
}

proof fn lemma_inert_lines_say_nothing(lines: Seq<Seq<char>>)
    requires
        forall|i: int| 0 <= i < lines.len() ==> is_inert(#[trigger] lines[i]),
    ensures
        after_lines(lines) == silent(),
    decreases lines.len(),
{
    if lines.len() > 0 {
        assert(is_inert(lines[lines.len() - 1]));
        assert forall|i: int| 0 <= i < lines.drop_last().len() implies is_inert(
            #[trigger] lines.drop_last()[i],
        ) by {
            assert(lines.drop_last()[i] == lines[i]);
        }
        lemma_inert_lines_say_nothing(lines.drop_last());
    }
}

/// A line that is a comment or sets nothing can be put in anywhere without
/// changing what a configuration says.
pub proof fn law_inert_lines_are_ignored(
    head: Seq<Seq<char>>,
    line: Seq<char>,
    tail: Seq<Seq<char>>,
)
    requires
        is_inert(line),
    ensures
        after_lines(head + seq![line] + tail) == after_lines(head + tail),
    decreases tail.len(),
{
    if tail.len() == 0 {
        assert((head + seq![line] + tail).drop_last() =~= head);
        assert(head + tail =~= head);
    } else {
        law_inert_lines_are_ignored(head, line, tail.drop_last());
        assert((head + seq![line] + tail).drop_last() =~= head + seq![line] + tail.drop_last());
        assert((head + tail).drop_last() =~= head + tail.drop_last());
    }
}

/// Any line is a comment once a number sign stands before it.
pub proof fn law_commented_out_lines_are_inert(line: Seq<char>)
    ensures
        is_inert(seq!['#'] + line),
{
    let commented = seq!['#'] + line;
    assert(commented[0] == '#');
    assert(without_prefix(commented, CharClass::WhiteSpace) == commented);
    lemma_suffix_keeps_the_sign(commented);
}

proof fn lemma_suffix_keeps_the_sign(s: Seq<char>)
    requires
        s.len() > 0,
        s[0] == '#',
    ensures
        without_suffix(s, CharClass::WhiteSpace).len() > 0,
        without_suffix(s, CharClass::WhiteSpace)[0] == '#',
    decreases s.len(),
{
    if white_space(s.last()) {
        lemma_suffix_keeps_the_sign(s.drop_last());
    }
}

/// The last line that sets the mode decides it, also where it sets no valid one.
pub proof fn law_last_mode_line_decides(head: Seq<Seq<char>>, line: Seq<char>)
    requires
        !is_inert(line),
        key_in(line) == "reasoning_display"@,
    ensures
        after_lines(head.push(line)).explicit_mode == mode_of(value_in(line)),
{
    assert(head.push(line).drop_last() =~= head);
}

/// A line sets a key: it is no comment, and what stands before its first equals
/// sign is the key, give or take white space.
pub open spec fn sets(line: Seq<char>, key: Seq<char>) -> bool {
    let text = trimmed(line);
    &&& text.contains('=')
    &&& text[0] != '#'
    &&& trimmed(before(text, '=')) == key
}

proof fn lemma_inert_or_sets(line: Seq<char>)
    ensures
        is_inert(line) <==> !sets(line, key_in(line)),
        forall|key: Seq<char>| #[trigger]
            sets(line, key) <==> !is_inert(line) && key_in(line) == key,
{
    crate::strings::lemma_find(trimmed(line), '=');
    crate::strings::law_a_split_loses_nothing(trimmed(line), '=');
}

/// The last line that sets the mode decides it, whatever lines stand before it
/// and whatever lines that do not set it stand behind; the same holds of the
/// older switch. Neither has a say in the other.
pub proof fn law_the_last_line_that_sets_a_key_decides(
    head: Seq<Seq<char>>,
    line: Seq<char>,
    tail: Seq<Seq<char>>,
)
    ensures
        sets(line, "reasoning_display"@) && (forall|i: int|
            0 <= i < tail.len() ==> !sets(#[trigger] tail[i], "reasoning_display"@))
            ==> after_lines(head + seq![line] + tail).explicit_mode == mode_of(value_in(line)),
        sets(line, "show_thinking"@) && (forall|i: int|
            0 <= i < tail.len() ==> !sets(#[trigger] tail[i], "show_thinking"@)) ==> after_lines(
            head + seq![line] + tail,
        ).show_thinking == bool_value(value_in(line)),
    decreases tail.len(),
{
    lemma_keys_differ();
    let all = head + seq![line] + tail;
    lemma_inert_or_sets(all.last());
    if tail.len() == 0 {
        assert(all.drop_last() =~= head);
        assert(all.last() == line);
    } else {
        let shorter = tail.drop_last();
        law_the_last_line_that_sets_a_key_decides(head, line, shorter);
        assert(all.drop_last() =~= head + seq![line] + shorter);
        assert(all.last() == tail[tail.len() - 1]);
        lemma_fewer_lines_set_less(tail, "reasoning_display"@);
        lemma_fewer_lines_set_less(tail, "show_thinking"@);
    }
}

/// Lines of which none sets the mode leave it unset; and so with the switch.
pub proof fn law_what_no_line_sets_is_unset(lines: Seq<Seq<char>>)
    ensures
        (forall|i: int| 0 <= i < lines.len() ==> !sets(#[trigger] lines[i], "reasoning_display"@))
            ==> after_lines(lines).explicit_mode is None,
        (forall|i: int| 0 <= i < lines.len() ==> !sets(#[trigger] lines[i], "show_thinking"@))
            ==> after_lines(lines).show_thinking is None,
    decreases lines.len(),
{
    lemma_keys_differ();
    if lines.len() > 0 {
        let shorter = lines.drop_last();
        law_what_no_line_sets_is_unset(shorter);
        lemma_inert_or_sets(lines.last());
        assert(lines.last() == lines[lines.len() - 1]);
        lemma_fewer_lines_set_less(lines, "reasoning_display"@);
        lemma_fewer_lines_set_less(lines, "show_thinking"@);
    }
}

proof fn lemma_fewer_lines_set_less(lines: Seq<Seq<char>>, key: Seq<char>)
    requires
        lines.len() > 0,
    ensures
        (forall|i: int| 0 <= i < lines.len() ==> !sets(#[trigger] lines[i], key)) ==> (forall|
            i: int,
        |
            0 <= i < lines.drop_last().len() ==> !sets(#[trigger] lines.drop_last()[i], key)),
{
    if forall|i: int| 0 <= i < lines.len() ==> !sets(#[trigger] lines[i], key) {
        assert forall|i: int| 0 <= i < lines.drop_last().len() implies !sets(
            #[trigger] lines.drop_last()[i],
            key,
        ) by {
            assert(lines.drop_last()[i] == lines[i]);
        }
    }
}

proof fn lemma_keys_differ()
    ensures
        "reasoning_display"@ != "show_thinking"@,
{
    reveal_strlit("reasoning_display");
    reveal_strlit("show_thinking");
    assert("reasoning_display"@.len() != "show_thinking"@.len());
}

/// A configuration whose last line that sets the mode sets a valid one comes to
/// that mode, whatever else it holds, and that is what the desktop asks for
/// where nothing overrides it.
pub proof fn law_an_explicit_mode_wins(config: Seq<char>, at: int)
    requires
        0 <= at < lines(config).len(),
        sets(lines(config)[at], "reasoning_display"@),
        forall|i: int|
            at < i < lines(config).len() ==> !sets(
                #[trigger] lines(config)[i],
                "reasoning_display"@,
            ),
        mode_of(value_in(lines(config)[at])) is Some,
    ensures
        configured(config) == mode_of(value_in(lines(config)[at])),
        Some(resolved(None, Some(config))) == mode_of(value_in(lines(config)[at])),
{
    let all = lines(config);
    let head = all.take(at);
    let tail = all.skip(at + 1);
    assert(all =~= head + seq![all[at]] + tail);
    assert forall|i: int| 0 <= i < tail.len() implies !sets(
        #[trigger] tail[i],
        "reasoning_display"@,
    ) by {
        assert(tail[i] == all[at + 1 + i]);
    }
    law_the_last_line_that_sets_a_key_decides(head, all[at], tail);
}

/// Where no line sets the mode, the last line that sets the older switch counts:
/// true shows thinking in full, false hides it.
pub proof fn law_the_switch_counts_where_no_mode_is_set(config: Seq<char>, at: int)
    requires
        forall|i: int|
            0 <= i < lines(config).len() ==> !sets(
                #[trigger] lines(config)[i],
                "reasoning_display"@,
            ),
        0 <= at < lines(config).len(),
        sets(lines(config)[at], "show_thinking"@),
        forall|i: int|
            at < i < lines(config).len() ==> !sets(#[trigger] lines(config)[i], "show_thinking"@),
    ensures
        value_in(lines(config)[at]) == "true"@ ==> configured(config) == Some("full"@) && resolved(
            None,
            Some(config),
        ) == "full"@,
        value_in(lines(config)[at]) == "false"@ ==> configured(config) == Some("off"@) && resolved(
            None,
            Some(config),
        ) == "off"@,
        value_in(lines(config)[at]) != "true"@ && value_in(lines(config)[at]) != "false"@
            ==> configured(config) is None && resolved(None, Some(config)) == "current"@,
{
    let all = lines(config);
    let head = all.take(at);
    let tail = all.skip(at + 1);
    assert(all =~= head + seq![all[at]] + tail);
    assert forall|i: int| 0 <= i < tail.len() implies !sets(
        #[trigger] tail[i],
        "show_thinking"@,
    ) by {
        assert(tail[i] == all[at + 1 + i]);
    }
    law_the_last_line_that_sets_a_key_decides(head, all[at], tail);
    law_what_no_line_sets_is_unset(all);
    crate::strings::law_truth_values(value_in(all[at]));
}

/// Where neither is set, nothing is configured and the desktop asks for live
/// thinking.
pub proof fn law_an_unset_configuration_asks_for_live_thinking(config: Seq<char>)
    requires
        forall|i: int|
            0 <= i < lines(config).len() ==> !sets(
                #[trigger] lines(config)[i],
                "reasoning_display"@,
            ) && !sets(lines(config)[i], "show_thinking"@),
    ensures
        configured(config) is None,
        resolved(None, Some(config)) == "current"@,
        resolved(None, None) == "current"@,
{
    law_what_no_line_sets_is_unset(lines(config));
}

/// What a line sets: its key is what stands before the first equals sign, and its
/// value what stands behind it up to a number sign, both without white space
/// around them, and the value without quotes around it.
pub proof fn law_a_line_sets_a_key_to_a_value(
    line: Seq<char>,
    key: Seq<char>,
    value: Seq<char>,
    comment: Seq<char>,
)
    requires
        trimmed(line) == key + seq!['='] + value + comment,
        !key.contains('='),
        !value.contains('#'),
        comment.len() > 0 ==> comment[0] == '#',
    ensures
        key_in(line) == trimmed(key),
        value_in(line) == stripped(
            stripped(trimmed(value), CharClass::Only('"')),
            CharClass::Only('\''),
        ),
        key.len() == 0 || key[0] != '#' ==> sets(line, trimmed(key)),
        key.len() > 0 && key[0] == '#' ==> is_inert(line) && !sets(line, trimmed(key)),
{
    let text = trimmed(line);
    lemma_find_here(text, '=', key.len() as int);
    assert(before(text, '=') =~= key);
    assert(behind(text, '=') =~= value + comment);
    lemma_find_here(value + comment, '#', value.len() as int);
    assert(before(value + comment, '#') =~= value);
    assert(text[key.len() as int] == '=');
    if key.len() > 0 {
        assert(text[0] == key[0]);
    }
    lemma_inert_or_sets(line);
}

proof fn lemma_find_here(s: Seq<char>, c: char, at: int)
    requires
        0 <= at <= s.len(),
        !s.take(at).contains(c),
        at < s.len() ==> s[at] == c,
    ensures
        find(s, c) == at,
{
    crate::strings::lemma_find(s, c);
    let found = find(s, c);
    if found < at {
        assert(s.take(at)[found] == c);
    }
}

/// The words for each mode, in any case and with any white space around them;
/// any other word stands for none.
pub proof fn law_words_for_modes(text: Seq<char>)
    ensures
        ({
            let word = crate::strings::ascii_lower(trimmed(text));
            let off = seq!["off"@, "none"@, "false"@, "0"@, "no"@];
            let full = seq!["full"@, "all"@, "true"@, "1"@, "yes"@, "on"@];
            let current = seq!["current"@, "live"@, "ephemeral"@, "collapse"@];
            &&& off.contains(word) ==> mode_of(text) == Some("off"@)
            &&& full.contains(word) && !off.contains(word) ==> mode_of(text) == Some("full"@)
            &&& current.contains(word) && !off.contains(word) && !full.contains(word) ==> mode_of(
                text,
            ) == Some("current"@)
            &&& !off.contains(word) && !full.contains(word) && !current.contains(word) ==> mode_of(
                text,
            ) is None
        }),
{
    let word = crate::strings::ascii_lower(trimmed(text));
    let off = seq!["off"@, "none"@, "false"@, "0"@, "no"@];
    let full = seq!["full"@, "all"@, "true"@, "1"@, "yes"@, "on"@];
    let current = seq!["current"@, "live"@, "ephemeral"@, "collapse"@];
    assert(off[0] == "off"@ && off[1] == "none"@ && off[2] == "false"@ && off[3] == "0"@ && off[4]
        == "no"@);
    assert(full[0] == "full"@ && full[1] == "all"@ && full[2] == "true"@ && full[3] == "1"@
        && full[4] == "yes"@ && full[5] == "on"@);
    assert(current[0] == "current"@ && current[1] == "live"@ && current[2] == "ephemeral"@
        && current[3] == "collapse"@);
}

/// The words that switch a flag off, and those that ask for every frame, in any
/// case and with any white space around them.
pub proof fn law_words_for_flags(text: Seq<char>)
    ensures
        ({
            let word = crate::strings::ascii_lower(trimmed(text));
            let off = seq![""@, "0"@, "false"@, "off"@, "no"@];
            let all = seq!["all"@, "trace"@];
            &&& reads_as_off(text) <==> off.contains(word)
            &&& reads_as_all(text) <==> all.contains(word)
        }),
{
    let off = seq![""@, "0"@, "false"@, "off"@, "no"@];
    let all = seq!["all"@, "trace"@];
    assert(off[0] == ""@ && off[1] == "0"@ && off[2] == "false"@ && off[3] == "off"@ && off[4]
        == "no"@);
    assert(all[0] == "all"@ && all[1] == "trace"@);
}

/// An argument that asks for the benchmark: the bare flag, or the flag with a
/// number behind its equals sign.
pub open spec fn asks(arg: Seq<char>) -> bool {
    ||| arg == "--stream-e2e-benchmark"@
    ||| exists|n: Seq<char>|
        arg == "--stream-e2e-benchmark="@ + n && #[trigger] is_number_upto(n, usize::MAX as int)
}

/// The first argument that asks for the benchmark decides its count, whatever
/// stands behind it: the number behind the equals sign; or for the bare flag the
/// number in the next argument, and the default where that is none.
pub proof fn law_the_first_flag_decides_the_count(
    args: Seq<Seq<char>>,
    at: int,
    number: Seq<char>,
    default: int,
)
    requires
        0 <= at < args.len(),
        forall|i: int| 0 <= i < at ==> !asks(#[trigger] args[i]),
    ensures
        args[at] == "--stream-e2e-benchmark="@ + number && is_number_upto(
            number,
            usize::MAX as int,
        ) ==> count_from(args, 0, default) == Some(digits_value(without_plus(number))),
        args[at] == "--stream-e2e-benchmark"@ && at + 1 < args.len() && is_number_upto(
            args[at + 1],
            usize::MAX as int,
        ) ==> count_from(args, 0, default) == Some(digits_value(without_plus(args[at + 1]))),
        args[at] == "--stream-e2e-benchmark"@ && (at + 1 == args.len() || !is_number_upto(
            args[at + 1],
            usize::MAX as int,
        )) ==> count_from(args, 0, default) == Some(default),
        at == args.len() - 1 && !asks(args[at]) ==> count_from(args, 0, default) is None,
{
    lemma_asking(args, at, default);
    lemma_skips_what_does_not_ask(args, 0, at, default);
    reveal_strlit("--stream-e2e-benchmark=");
    reveal_strlit("--stream-e2e-benchmark");
    let prefix = "--stream-e2e-benchmark="@;
    if args[at] == prefix + number {
        assert(prefix =~= args[at].subrange(0, prefix.len() as int));
        assert(args[at].skip(prefix.len() as int) =~= number);
    }
    if args[at] == "--stream-e2e-benchmark"@ {
        assert(!prefix.is_prefix_of(args[at]));
    }
    if !asks(args[at]) {
        assert(count_from(args, at + 1, default) is None || at + 1 < args.len());
    }
}

proof fn lemma_asking(args: Seq<Seq<char>>, at: int, default: int)
    requires
        0 <= at < args.len(),
    ensures
        count_at(args, at, default) is Some <==> asks(args[at]),
{
    let prefix = "--stream-e2e-benchmark="@;
    let arg = args[at];
    if prefix.is_prefix_of(arg) && count_in(arg.skip(prefix.len() as int)) is Some {
        assert(arg =~= prefix + arg.skip(prefix.len() as int));
        assert(is_number_upto(arg.skip(prefix.len() as int), usize::MAX as int));
    }
    if exists|n: Seq<char>|
        arg == prefix + n && #[trigger] is_number_upto(n, usize::MAX as int) {
        let n = choose|n: Seq<char>|
            arg == prefix + n && #[trigger] is_number_upto(n, usize::MAX as int);
        assert(prefix =~= arg.subrange(0, prefix.len() as int));
        assert(arg.skip(prefix.len() as int) =~= n);
    }
}

proof fn lemma_skips_what_does_not_ask(args: Seq<Seq<char>>, from: int, to: int, default: int)
    requires
        0 <= from <= to <= args.len(),
        forall|i: int| from <= i < to ==> !asks(#[trigger] args[i]),
    ensures
        count_from(args, from, default) == count_from(args, to, default),
    decreases to - from,
{
    if from < to {
        lemma_asking(args, from, default);
        assert(!asks(args[from]));
        lemma_skips_what_does_not_ask(args, from + 1, to, default);
    }
}

/// A line sets no more than one key, a comment and a line without an equals sign
/// set none, and any other line sets one.
pub proof fn law_a_line_sets_one_key_at_most(line: Seq<char>, key: Seq<char>, other: Seq<char>)
    ensures
        sets(line, key) && sets(line, other) ==> key == other,
        !trimmed(line).contains('=') ==> !sets(line, key) && is_inert(line),
        trimmed(line).len() > 0 && trimmed(line)[0] == '#' ==> !sets(line, key) && is_inert(line),
        trimmed(line).contains('=') && trimmed(line)[0] != '#' ==> sets(
            line,
            trimmed(before(trimmed(line), '=')),
        ) && !is_inert(line),
{
    lemma_inert_or_sets(line);
    crate::strings::law_a_split_loses_nothing(trimmed(line), '=');
    crate::strings::lemma_find(trimmed(line), '=');
    if trimmed(line).contains('=') {
        let k = choose|k: int| 0 <= k < trimmed(line).len() && trimmed(line)[k] == '=';
        assert(trimmed(line).len() > 0);
    }
}

/// An argument asks for the benchmark only as the bare flag, or with a number
/// behind the equals sign.
pub proof fn law_only_the_flag_asks(arg: Seq<char>, number: Seq<char>)
    ensures
        asks("--stream-e2e-benchmark"@),
        asks("--stream-e2e-benchmark="@ + number) <==> is_number_upto(number, usize::MAX as int),
        asks(arg) ==> arg == "--stream-e2e-benchmark"@ || (
        "--stream-e2e-benchmark="@.is_prefix_of(arg) && is_number_upto(
            arg.skip("--stream-e2e-benchmark="@.len() as int),
            usize::MAX as int,
        )),
{
    reveal_strlit("--stream-e2e-benchmark");
    reveal_strlit("--stream-e2e-benchmark=");
    let prefix = "--stream-e2e-benchmark="@;
    let all = prefix + number;
    if asks(all) {
        assert(all.len() >= 23);
        assert(all != "--stream-e2e-benchmark"@);
        let n = choose|n: Seq<char>|
            all == prefix + n && #[trigger] is_number_upto(n, usize::MAX as int);
        assert(n =~= all.skip(23));
        assert(number =~= all.skip(23));
    }
    if asks(arg) && arg != "--stream-e2e-benchmark"@ {
        let n = choose|n: Seq<char>|
            arg == prefix + n && #[trigger] is_number_upto(n, usize::MAX as int);
        assert(n =~= arg.skip(23));
        assert(prefix =~= arg.subrange(0, 23));
    }
}

/// A bare flag at the end asks for six times what one batch forwards, whatever
/// arguments that do not ask stand before it; and arguments of which none asks,
/// for nothing.
pub proof fn law_a_bare_flag_asks_for_six_batches(args: Seq<Seq<char>>, max_raw_events: int)
    requires
        forall|i: int| 0 <= i < args.len() ==> !asks(#[trigger] args[i]),
    ensures
        benchmark_count(args.push("--stream-e2e-benchmark"@), max_raw_events) == Some(
            6 * max_raw_events,
        ),
        benchmark_count(args, max_raw_events) is None,
        forall|more: Seq<Seq<char>>|
            #![trigger benchmark_count(more, max_raw_events)]
            benchmark_count(more, max_raw_events) == count_from(more, 0, 6 * max_raw_events),
{
    let flagged = args.push("--stream-e2e-benchmark"@);
    assert forall|i: int| 0 <= i < args.len() implies !asks(#[trigger] flagged[i]) by {
        assert(flagged[i] == args[i]);
    }
    law_the_first_flag_decides_the_count(
        flagged,
        args.len() as int,
        Seq::empty(),
        max_raw_events * 6,
    );
    lemma_skips_what_does_not_ask(args, 0, args.len() as int, max_raw_events * 6);
}

} // verus!
