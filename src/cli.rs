use vstd::prelude::*;
use vstd::string::*;

use crate::offer::{mode_of, mode_text, mode_token, parse_mode};
use crate::text::{
    chars_of, has_prefix, lacks, lemma_split_char_two, occurs_at, ranges_within, split_char,
    split_ranges, str_eq, substring, trim, trim_range,
};
use crate::types::{Config, TransferMode};

verus! {

/// What the command line asks for: the first recognised flag decides.
#[derive(Debug, Clone, Copy, PartialEq, Eq, Structural)]
pub enum CliCommand {
    Help,
    Version,
    Receive,
    Send,
    /// View or change settings; the subcommand's words start at this
    /// position of the arguments.
    Config(usize),
    /// No recognised flag.
    Unknown,
}

/// The command a single argument names, if it is a flag; `at` is its
/// position.
pub open spec fn flag_command(a: Seq<char>, at: int) -> Option<CliCommand> {
    if a == "--help"@ || a == "-h"@ {
        Some(CliCommand::Help)
    } else if a == "--version"@ || a == "-V"@ {
        Some(CliCommand::Version)
    } else if a == "--rec"@ || a == "-r"@ {
        Some(CliCommand::Receive)
    } else if a == "--snd"@ || a == "-s"@ {
        Some(CliCommand::Send)
    } else if a == "--config"@ || a == "-c"@ {
        Some(CliCommand::Config((at + 1) as usize))
    } else {
        None
    }
}

/// The command of the first flag at or after position `i`.
pub open spec fn command_from(args: Seq<Seq<char>>, i: int) -> CliCommand
    decreases args.len() - i,
{
    if i < 0 || i >= args.len() {
        CliCommand::Unknown
    } else {
        match flag_command(args[i], i) {
            Some(c) => c,
            None => command_from(args, i + 1),
        }
    }
}

/// The arguments as character sequences.
pub open spec fn arg_texts(args: Seq<String>) -> Seq<Seq<char>> {
    args.map_values(|s: String| s@)
}

/// The command a single argument names, if it is a flag.
fn flag(a: &str, at: usize) -> (r: Option<CliCommand>)
    requires
        at < usize::MAX,
    ensures
        r == flag_command(a@, at as int),
{
    if str_eq(a, "--help") || str_eq(a, "-h") {
        Some(CliCommand::Help)
    } else if str_eq(a, "--version") || str_eq(a, "-V") {
        Some(CliCommand::Version)
    } else if str_eq(a, "--rec") || str_eq(a, "-r") {
        Some(CliCommand::Receive)
    } else if str_eq(a, "--snd") || str_eq(a, "-s") {
        Some(CliCommand::Send)
    } else if str_eq(a, "--config") || str_eq(a, "-c") {
        Some(CliCommand::Config(at + 1))
    } else {
        None
    }
}

/// Reads the command line (without the program name): the first of
/// `--help`/`-h`, `--version`/`-V`, `--rec`/`-r`, `--snd`/`-s`,
/// `--config`/`-c` decides.
pub fn parse(args: &[String]) -> (r: CliCommand)
    ensures
        r == command_from(arg_texts(args@), 0),
{
    let ghost texts = arg_texts(args@);
    let mut i: usize = 0;
    while i < args.len()
        invariant
            i <= args@.len(),
            texts == arg_texts(args@),
            command_from(texts, 0) == command_from(texts, i as int),
        decreases args@.len() - i,
    {
        assert(texts[i as int] == args@[i as int]@);
        match flag(args[i].as_str(), i) {
            Some(c) => {
                return c;
            },
            None => {},
        }
        i = i + 1;
    }
    CliCommand::Unknown
}

/// What `str::to_lowercase` makes of a text (full Unicode case mapping).
pub uninterp spec fn lower_of(s: Seq<char>) -> Seq<char>;

/// Relies on `str::to_lowercase`: the result depends on the characters
/// alone.
#[verifier::external_body]
fn lowercase(s: &str) -> (r: String)
    ensures
        r@ == lower_of(s@),
{
    s.to_lowercase()
}

/// A setting to change.
#[derive(Debug, Clone, Copy, PartialEq, Eq, Structural)]
pub enum ConfigSetting {
    SendMethod(TransferMode),
    FollowSymlinks(bool),
}

/// Why a `--config` command was refused.
#[derive(Debug, Clone, Copy, PartialEq, Eq, Structural)]
pub enum ConfigError {
    /// `set` without both a key and a value.
    SetUsage,
    /// A `send_method` value other than `legacy`, `1`, `semi-reliable`, `2`.
    InvalidSendMethod,
    /// A `follow_symlinks` value that is no yes or no.
    InvalidFollowSymlinks,
    /// A key other than `send_method` and `follow_symlinks`.
    InvalidKey,
    /// A subcommand other than `set` and `reset`.
    InvalidCommand,
}

/// What a `--config` command asks for.
#[derive(Debug, Clone)]
pub enum ConfigCommand {
    /// Show the settings.
    Show,
    /// Change one setting; `key` and `value` as given, in small letters.
    Change { setting: ConfigSetting, key: String, value: String },
    /// Go back to the default settings.
    Reset,
    /// A refused command.
    Invalid(ConfigError),
}

/// The setting a key and value (already in small letters) ask for.
pub open spec fn setting_of(key: Seq<char>, value: Seq<char>) -> Result<ConfigSetting, ConfigError> {
    if key == "send_method"@ {
        if value == "legacy"@ || value == "1"@ {
            Ok(ConfigSetting::SendMethod(TransferMode::Legacy))
        } else if value == "semi-reliable"@ || value == "2"@ {
            Ok(ConfigSetting::SendMethod(TransferMode::SemiReliable))
        } else {
            Err(ConfigError::InvalidSendMethod)
        }
    } else if key == "follow_symlinks"@ {
        if value == "true"@ || value == "1"@ || value == "yes"@ || value == "on"@ {
            Ok(ConfigSetting::FollowSymlinks(true))
        } else if value == "false"@ || value == "0"@ || value == "no"@ || value == "off"@ {
            Ok(ConfigSetting::FollowSymlinks(false))
        } else {
            Err(ConfigError::InvalidFollowSymlinks)
        }
    } else {
        Err(ConfigError::InvalidKey)
    }
}

/// The setting a key and value (already in small letters) ask for.
pub fn setting_for(key: &str, value: &str) -> (r: Result<ConfigSetting, ConfigError>)
    ensures
        r == setting_of(key@, value@),
{
    if str_eq(key, "send_method") {
        if str_eq(value, "legacy") || str_eq(value, "1") {
            Ok(ConfigSetting::SendMethod(TransferMode::Legacy))
        } else if str_eq(value, "semi-reliable") || str_eq(value, "2") {
            Ok(ConfigSetting::SendMethod(TransferMode::SemiReliable))
        } else {
            Err(ConfigError::InvalidSendMethod)
        }
    } else if str_eq(key, "follow_symlinks") {
        if str_eq(value, "true") || str_eq(value, "1") || str_eq(value, "yes") || str_eq(
            value,
            "on",
        ) {
            Ok(ConfigSetting::FollowSymlinks(true))
        } else if str_eq(value, "false") || str_eq(value, "0") || str_eq(value, "no") || str_eq(
            value,
            "off",
        ) {
            Ok(ConfigSetting::FollowSymlinks(false))
        } else {
            Err(ConfigError::InvalidFollowSymlinks)
        }
    } else {
        Err(ConfigError::InvalidKey)
    }
}

/// Reads the words after `--config`: none shows the settings, `set <key>
/// <value>` changes one (key and value in any case), `reset` restores the
/// defaults.
pub fn config_command(args: &[String]) -> (r: ConfigCommand)
    ensures
        args@.len() == 0 ==> r is Show,
        args@.len() > 0 && args@[0]@ == "set"@ ==> if args@.len() < 3 {
            (r matches ConfigCommand::Invalid(e) && e == ConfigError::SetUsage)
        } else {
            match setting_of(lower_of(args@[1]@), lower_of(args@[2]@)) {
                Ok(s) => (r matches ConfigCommand::Change { setting, key, value } && setting == s
                    && key@ == lower_of(args@[1]@) && value@ == lower_of(args@[2]@)),
                Err(e) => (r matches ConfigCommand::Invalid(g) && g == e),
            }
        },
        args@.len() > 0 && args@[0]@ == "reset"@ ==> r is Reset,
        args@.len() > 0 && args@[0]@ != "set"@ && args@[0]@ != "reset"@ ==> (r matches ConfigCommand::Invalid(
            e,
        ) && e == ConfigError::InvalidCommand),
{
    proof {
        reveal_strlit("set");
        reveal_strlit("reset");
        assert("set"@.len() == 3);
        assert("reset"@.len() == 5);
        assert("set"@ != "reset"@);
    }
    if args.len() == 0 {
        ConfigCommand::Show
    } else if str_eq(args[0].as_str(), "set") {
        if args.len() < 3 {
            return ConfigCommand::Invalid(ConfigError::SetUsage);
        }
        let key = lowercase(args[1].as_str());
        let value = lowercase(args[2].as_str());
        match setting_for(key.as_str(), value.as_str()) {
            Ok(setting) => ConfigCommand::Change { setting, key, value },
            Err(e) => ConfigCommand::Invalid(e),
        }
    } else if str_eq(args[0].as_str(), "reset") {
        ConfigCommand::Reset
    } else {
        ConfigCommand::Invalid(ConfigError::InvalidCommand)
    }
}

impl Config {
    /// These settings with one of them changed.
    pub fn with_setting(self, setting: ConfigSetting) -> (r: Config)
        ensures
            r == (match setting {
                ConfigSetting::SendMethod(m) => Config { send_method: m, ..self },
                ConfigSetting::FollowSymlinks(b) => Config { follow_symlinks: b, ..self },
            }),
    {
        match setting {
            ConfigSetting::SendMethod(m) => Config { send_method: m, ..self },
            ConfigSetting::FollowSymlinks(b) => Config { follow_symlinks: b, ..self },
        }
    }
}

} // verus!

verus! {

/// The settings file's text for `c`.
pub open spec fn config_text(c: Config) -> Seq<char> {
    "send_method = "@ + mode_text(c.send_method) + "\nfollow_symlinks = "@ + (if c.follow_symlinks {
        "true"@
    } else {
        "false"@
    })
}

/// The settings after one line of the settings file: `send_method = <v>`
/// sets the mode (semi-reliable for its own token, legacy for any other),
/// `follow_symlinks = <v>` sets whether links are followed (`true` only);
/// values are trimmed, other lines change nothing.
pub open spec fn apply_config_line(c: Config, line: Seq<char>) -> Config {
    let c1 = if has_prefix(line, "send_method = "@) {
        Config {
            send_method: mode_of(trim(line.subrange("send_method = "@.len() as int, line.len() as int))),
            ..c
        }
    } else {
        c
    };
    if has_prefix(line, "follow_symlinks = "@) {
        Config {
            follow_symlinks: trim(line.subrange("follow_symlinks = "@.len() as int, line.len() as int))
                == "true"@,
            ..c1
        }
    } else {
        c1
    }
}

/// The settings after the given lines, in order, starting from `c`.
pub open spec fn config_from_lines(c: Config, lines: Seq<Seq<char>>) -> Config
    decreases lines.len(),
{
    if lines.len() == 0 {
        c
    } else {
        apply_config_line(config_from_lines(c, lines.drop_last()), lines.last())
    }
}

/// The settings a settings file holds, starting from the defaults.
pub open spec fn config_of_text(text: Seq<char>) -> Config {
    config_from_lines(
        Config { send_method: TransferMode::SemiReliable, follow_symlinks: false },
        split_char(text, '\n'),
    )
}

/// Whether `m[s..e]` starts with `p`, and the trimmed rest after it.
fn value_after(text: &str, m: &Vec<char>, s: usize, e: usize, p: &Vec<char>) -> (r: Option<String>)
    requires
        m@ == text@,
        s <= e <= m@.len(),
    ensures
        match r {
            Some(v) => has_prefix(m@.subrange(s as int, e as int), p@) && v@ == trim(
                m@.subrange(s as int, e as int).subrange(p@.len() as int, e - s),
            ),
            None => !has_prefix(m@.subrange(s as int, e as int), p@),
        },
{
    let ghost line = m@.subrange(s as int, e as int);
    if e - s < p.len() {
        return None;
    }
    let found = occurs_at(m, p, s);
    assert(line.subrange(0, p@.len() as int) =~= m@.subrange(s as int, s + p@.len()));
    if !found {
        return None;
    }
    let (a, b) = trim_range(m, s + p.len(), e);
    assert(line.subrange(p@.len() as int, e - s) =~= m@.subrange(s + p@.len(), e as int));
    Some(substring(text, a, b))
}

/// Reads a settings file; lines it does not know are skipped, and a later
/// line wins over an earlier one.
pub fn parse_config_text(text: &str) -> (r: Config)
    ensures
        r == config_of_text(text@),
{
    let m = chars_of(text);
    let ranges = split_ranges(&m, '\n');
    let ghost lines = split_char(text@, '\n');
    let sm = chars_of("send_method = ");
    let fs = chars_of("follow_symlinks = ");
    let mut c = Config::default_config();
    let mut k: usize = 0;
    assert(lines.subrange(0, 0) =~= Seq::<Seq<char>>::empty());
    while k < ranges.len()
        invariant
            m@ == text@,
            lines == split_char(text@, '\n'),
            ranges@.len() == lines.len(),
            ranges_within(m@, ranges@),
            forall|j: int|
                0 <= j < ranges@.len() ==> m@.subrange(ranges@[j].0 as int, ranges@[j].1 as int)
                    == #[trigger] lines[j],
            sm@ == "send_method = "@,
            fs@ == "follow_symlinks = "@,
            k <= ranges@.len(),
            c == config_from_lines(
                Config { send_method: TransferMode::SemiReliable, follow_symlinks: false },
                lines.subrange(0, k as int),
            ),
        decreases ranges@.len() - k,
    {
        let (s, e) = ranges[k];
        assert(s == ranges@[k as int].0 && e == ranges@[k as int].1);
        let ghost line = lines[k as int];
        assert(lines.subrange(0, k + 1).drop_last() =~= lines.subrange(0, k as int));
        assert(lines.subrange(0, k + 1).last() == line);
        let ghost before = c;
        match value_after(text, &m, s, e, &sm) {
            Some(v) => {
                c = Config { send_method: parse_mode(v.as_str()), ..c };
            },
            None => {},
        }
        match value_after(text, &m, s, e, &fs) {
            Some(v) => {
                c = Config { follow_symlinks: str_eq(v.as_str(), "true"), ..c };
            },
            None => {},
        }
        assert(c == apply_config_line(before, line));
        k = k + 1;
    }
    assert(lines.subrange(0, k as int) =~= lines);
    c
}

/// The settings file's text for `c`.
pub fn render_config(c: Config) -> (r: String)
    ensures
        r@ == config_text(c),
{
    let r = String::from_str("send_method = ").concat(mode_token(c.send_method)).concat(
        "\nfollow_symlinks = ",
    );
    if c.follow_symlinks {
        r.concat("true")
    } else {
        r.concat("false")
    }
}

} // verus!

verus! {

/// Writing settings to the settings file's text and reading it back gives
/// the same settings.
pub proof fn lemma_config_round_trip(c: Config)
    ensures
        config_of_text(config_text(c)) == c,
{
    reveal_strlit("send_method = ");
    reveal_strlit("\nfollow_symlinks = ");
    reveal_strlit("follow_symlinks = ");
    reveal_strlit("legacy");
    reveal_strlit("semi-reliable");
    reveal_strlit("true");
    reveal_strlit("false");
    let sm = "send_method = "@;
    let fs = "follow_symlinks = "@;
    let mt = mode_text(c.send_method);
    let b = if c.follow_symlinks {
        "true"@
    } else {
        "false"@
    };
    let a_line = sm + mt;
    let b_line = fs + b;
    assert("\nfollow_symlinks = "@ =~= seq!['\n'] + fs);
    assert(config_text(c) =~= a_line + seq!['\n'] + b_line);
    assert(lacks(a_line, '\n'));
    assert(lacks(b_line, '\n'));
    lemma_split_char_two(a_line, b_line, '\n');
    let lines = seq![a_line, b_line];
    let d = Config { send_method: TransferMode::SemiReliable, follow_symlinks: false };
    assert(lines.drop_last() =~~= seq![a_line]);
    assert(seq![a_line].drop_last() =~~= Seq::<Seq<char>>::empty());
    assert(a_line.subrange(0, sm.len() as int) =~= sm);
    assert(a_line.subrange(sm.len() as int, a_line.len() as int) =~= mt);
    assert(a_line[0] != fs[0]);
    assert(b_line.subrange(0, fs.len() as int) =~= fs);
    assert(b_line.subrange(fs.len() as int, b_line.len() as int) =~= b);
    assert(b_line[0] != sm[0]);
    assert(trim(mt) == mt);
    assert(mode_of(mt) == c.send_method);
    assert(trim(b) == b);
    assert(config_from_lines(d, Seq::<Seq<char>>::empty()) == d);
    assert(config_from_lines(d, seq![a_line]) == apply_config_line(d, a_line));
    assert(lines.last() == b_line);
    assert(config_from_lines(d, lines) == apply_config_line(
        config_from_lines(d, seq![a_line]),
        b_line,
    ));
}

} // verus!
