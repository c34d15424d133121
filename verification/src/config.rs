//! Option handling: the well-known directories, the provider choice, the
//! config-file merge, and the shell the system editor runs under. Reading
//! the environment, the config file, and the command line stays with the
//! caller; everything here turns plain values into plain values.
use vstd::prelude::*;
use vstd::string::{StrSliceExecFns, StringSliceAdditionalSpecFns};

use crate::http::ApiProvider;

verus! {

/// The providers the command line lets a user pick.
#[derive(PartialEq, Eq, Structural, Clone, Copy, Debug)]
pub enum Provider {
    Anthropic,
    OpenAI,
}

/// `s` with its ASCII capitals lowered.
pub open spec fn ascii_lower(s: Seq<u8>) -> Seq<u8> {
    s.map_values(|b: u8| if 0x41 <= b <= 0x5a { (b + 0x20) as u8 } else { b })
}

/// Lowers the ASCII capitals of `v`.
pub fn ascii_lower_exec(v: &Vec<u8>) -> (r: Vec<u8>)
    ensures
        r@ == ascii_lower(v@),
{
    let mut r: Vec<u8> = Vec::new();
    let mut i: usize = 0;
    while i < v.len()
        invariant
            i <= v@.len(),
            r@ == ascii_lower(v@.take(i as int)),
        decreases v@.len() - i,
    {
        let b = v[i];
        proof {
            assert(ascii_lower(v@.take(i + 1)) =~= ascii_lower(v@.take(i as int)).push(
                if 0x41 <= b <= 0x5a {
                    (b + 0x20) as u8
                } else {
                    b
                },
            ));
        }
        if b >= 0x41 && b <= 0x5a {
            r.push(b + 0x20);
        } else {
            r.push(b);
        }
        i = i + 1;
    }
    proof {
        assert(v@.take(v@.len() as int) =~= v@);
    }
    r
}

/// The provider a name picks, case-insensitively: `anthropic` or `openai`.
pub open spec fn spec_parse_provider(s: Seq<u8>) -> Option<Provider> {
    if ascii_lower(s) == vstd::utf8::encode_utf8("anthropic"@) {
        Some(Provider::Anthropic)
    } else if ascii_lower(s) == vstd::utf8::encode_utf8("openai"@) {
        Some(Provider::OpenAI)
    } else {
        None
    }
}

/// Parses a provider name; an unknown name is an error.
pub fn parse_provider(s: &str) -> (r: Result<Provider, ()>)
    ensures
        r is Ok <==> spec_parse_provider(s.spec_bytes()) is Some,
        r is Ok ==> r->Ok_0 == spec_parse_provider(s.spec_bytes())->Some_0,
{
    let bytes = s.as_bytes_vec();
    let low = ascii_lower_exec(&bytes);
    let anthropic = "anthropic".as_bytes_vec();
    let openai = "openai".as_bytes_vec();
    if crate::http::bytes_eq(&low, &anthropic) {
        Ok(Provider::Anthropic)
    } else if crate::http::bytes_eq(&low, &openai) {
        Ok(Provider::OpenAI)
    } else {
        Err(())
    }
}

/// The wire API a provider choice selects; no choice defaults to OpenAI.
pub fn provider_to_api(provider: Option<Provider>) -> (r: ApiProvider)
    ensures
        provider == Some(Provider::Anthropic) ==> r is Anthropic,
        provider == Some(Provider::OpenAI) ==> r is OpenAi,
        provider is None ==> r is OpenAi,
{
    match provider {
        Some(Provider::Anthropic) => ApiProvider::Anthropic,
        Some(Provider::OpenAI) => ApiProvider::OpenAi,
        None => ApiProvider::OpenAi,
    }
}

/// The configuration directory under a home directory.
pub fn get_config_dir(home: &str) -> (r: Vec<u8>)
    ensures
        r@ == home.spec_bytes() + vstd::utf8::encode_utf8("/.config/tllm"@),
{
    let mut r = home.as_bytes_vec();
    let mut tail = "/.config/tllm".as_bytes_vec();
    r.append(&mut tail);
    r
}

/// The local data directory under a home directory.
pub fn get_local_dir(home: &str) -> (r: Vec<u8>)
    ensures
        r@ == home.spec_bytes() + vstd::utf8::encode_utf8("/.local/tllm"@),
{
    let mut r = home.as_bytes_vec();
    let mut tail = "/.local/tllm".as_bytes_vec();
    r.append(&mut tail);
    r
}

/// The saved-conversation directory under a home directory.
pub fn get_conversations_dir(home: &str) -> (r: Vec<u8>)
    ensures
        r@ == home.spec_bytes() + vstd::utf8::encode_utf8("/.local/tllm/conversations"@),
{
    let mut r = home.as_bytes_vec();
    let mut tail = "/.local/tllm/conversations".as_bytes_vec();
    r.append(&mut tail);
    r
}

/// The boolean a config value names, if it names one.
pub open spec fn spec_parse_bool(s: Seq<u8>) -> Option<bool> {
    let low = ascii_lower(s);
    if low == vstd::utf8::encode_utf8("true"@) || low == vstd::utf8::encode_utf8("1"@) || low
        == vstd::utf8::encode_utf8("yes"@) || low == vstd::utf8::encode_utf8("on"@) {
        Some(true)
    } else if low == vstd::utf8::encode_utf8("false"@) || low == vstd::utf8::encode_utf8("0"@)
        || low == vstd::utf8::encode_utf8("no"@) || low == vstd::utf8::encode_utf8("off"@) {
        Some(false)
    } else {
        None
    }
}

/// Parses a config boolean: `true`/`1`/`yes`/`on` and their negatives.
pub fn parse_config_bool(v: &Vec<u8>) -> (r: Option<bool>)
    ensures
        r == spec_parse_bool(v@),
{
    let low = ascii_lower_exec(v);
    let t1 = "true".as_bytes_vec();
    let t2 = "1".as_bytes_vec();
    let t3 = "yes".as_bytes_vec();
    let t4 = "on".as_bytes_vec();
    let f1 = "false".as_bytes_vec();
    let f2 = "0".as_bytes_vec();
    let f3 = "no".as_bytes_vec();
    let f4 = "off".as_bytes_vec();
    if crate::http::bytes_eq(&low, &t1) || crate::http::bytes_eq(&low, &t2) || crate::http::bytes_eq(
        &low,
        &t3,
    ) || crate::http::bytes_eq(&low, &t4) {
        Some(true)
    } else if crate::http::bytes_eq(&low, &f1) || crate::http::bytes_eq(&low, &f2)
        || crate::http::bytes_eq(&low, &f3) || crate::http::bytes_eq(&low, &f4) {
        Some(false)
    } else {
        None
    }
}

/// The command-line surface before defaults are applied: every flag may be
/// absent so a config file can fill it in.
pub struct CliConfig {
    pub message: Option<Vec<u8>>,
    pub system_prompt: Option<Vec<u8>>,
    pub list: Option<bool>,
    pub load_last_conversation: Option<bool>,
    pub editor: Option<bool>,
    pub provider: Option<Provider>,
    pub open: Option<bool>,
    pub respond: Option<bool>,
    pub export_all: Option<Vec<u8>>,
    pub database: Option<Vec<u8>>,
    pub no_config: Option<bool>,
    pub stream: Option<bool>,
}

/// The consolidated options after defaults.
pub struct Options {
    pub message: Option<Vec<u8>>,
    pub system_prompt: Option<Vec<u8>>,
    pub list: bool,
    pub load_last_conversation: bool,
    pub editor: bool,
    pub provider: Option<Provider>,
    pub open: bool,
    pub respond: bool,
    pub export_all: Option<Vec<u8>>,
    pub database: Option<Vec<u8>>,
    pub stream: bool,
}

/// Resolves the parsed command line into options: absent booleans default
/// to off.
pub fn cli_to_options(cli: CliConfig) -> (r: Options)
    ensures
        r.message == cli.message,
        r.system_prompt == cli.system_prompt,
        r.list == (cli.list == Some(true)),
        r.load_last_conversation == (cli.load_last_conversation == Some(true)),
        r.editor == (cli.editor == Some(true)),
        r.provider == cli.provider,
        r.open == (cli.open == Some(true)),
        r.respond == (cli.respond == Some(true)),
        r.export_all == cli.export_all,
        r.database == cli.database,
        r.stream == (cli.stream == Some(true)),
{
    Options {
        message: cli.message,
        system_prompt: cli.system_prompt,
        list: matches!(cli.list, Some(true)),
        load_last_conversation: matches!(cli.load_last_conversation, Some(true)),
        editor: matches!(cli.editor, Some(true)),
        provider: cli.provider,
        open: matches!(cli.open, Some(true)),
        respond: matches!(cli.respond, Some(true)),
        export_all: cli.export_all,
        database: cli.database,
        stream: matches!(cli.stream, Some(true)),
    }
}

/// The mathematical shadow of [`CliConfig`]: byte vectors as sequences.
pub ghost struct CliModel {
    pub message: Option<Seq<u8>>,
    pub system_prompt: Option<Seq<u8>>,
    pub list: Option<bool>,
    pub load_last_conversation: Option<bool>,
    pub editor: Option<bool>,
    pub provider: Option<Provider>,
    pub open: Option<bool>,
    pub respond: Option<bool>,
    pub export_all: Option<Seq<u8>>,
    pub database: Option<Seq<u8>>,
    pub no_config: Option<bool>,
    pub stream: Option<bool>,
}

impl CliConfig {
    /// The model of this option set.
    pub open spec fn model(&self) -> CliModel {
        CliModel {
            message: match self.message {
                Some(v) => Some(v@),
                None => None,
            },
            system_prompt: match self.system_prompt {
                Some(v) => Some(v@),
                None => None,
            },
            list: self.list,
            load_last_conversation: self.load_last_conversation,
            editor: self.editor,
            provider: self.provider,
            open: self.open,
            respond: self.respond,
            export_all: match self.export_all {
                Some(v) => Some(v@),
                None => None,
            },
            database: match self.database {
                Some(v) => Some(v@),
                None => None,
            },
            no_config: self.no_config,
            stream: self.stream,
        }
    }
}

/// How one config line lands on the options: comments and lines without an
/// equals sign pass by; a known key takes the parsed value, where an
/// invalid boolean or provider clears the optional flag.
pub open spec fn spec_apply_line(cli: CliModel, line: Seq<u8>) -> CliModel {
    let t = crate::http::trim_ws(line);
    if t.len() == 0 || t[0] == 0x23 {
        cli
    } else {
        let eq = crate::http::find_byte(t, 0x3d, 0);
        if eq == t.len() {
            cli
        } else {
            let key = crate::http::trim_ws(t.subrange(0, eq));
            let value = crate::http::trim_ws(t.subrange(eq + 1, t.len() as int));
            if key == vstd::utf8::encode_utf8("provider"@) {
                CliModel { provider: spec_parse_provider(value), ..cli }
            } else if key == vstd::utf8::encode_utf8("list"@) {
                CliModel { list: spec_parse_bool(value), ..cli }
            } else if key == vstd::utf8::encode_utf8("load_last_conversation"@) {
                CliModel { load_last_conversation: spec_parse_bool(value), ..cli }
            } else if key == vstd::utf8::encode_utf8("editor"@) {
                CliModel { editor: spec_parse_bool(value), ..cli }
            } else if key == vstd::utf8::encode_utf8("system_prompt"@) {
                CliModel { system_prompt: Some(value), ..cli }
            } else if key == vstd::utf8::encode_utf8("open"@) {
                CliModel { open: spec_parse_bool(value), ..cli }
            } else if key == vstd::utf8::encode_utf8("respond"@) {
                CliModel { respond: spec_parse_bool(value), ..cli }
            } else if key == vstd::utf8::encode_utf8("stream"@) {
                CliModel { stream: spec_parse_bool(value), ..cli }
            } else {
                cli
            }
        }
    }
}

/// `spec_apply_line` folded over a run of config lines.
pub open spec fn spec_merge(cli: CliModel, lines: Seq<Seq<u8>>) -> CliModel
    decreases lines.len(),
{
    if lines.len() == 0 {
        cli
    } else {
        spec_merge(spec_apply_line(cli, lines[0]), lines.drop_first())
    }
}

/// Applies one config line to the options, as [`spec_apply_line`] says.
pub fn apply_config_line(cli: CliConfig, line: &Vec<u8>) -> (r: CliConfig)
    ensures
        r.model() == spec_apply_line(cli.model(), line@),
{
    let t = crate::http::trim_ws_exec(line);
    if t.len() == 0 || t[0] == 0x23 {
        return cli;
    }
    let eq = crate::http::find_byte_from(&t, 0x3d, 0);
    if eq == t.len() {
        return cli;
    }
    let mut keyrun: Vec<u8> = Vec::new();
    let mut i: usize = 0;
    while i < eq
        invariant
            i <= eq <= t@.len(),
            keyrun@ == t@.subrange(0, i as int),
        decreases eq - i,
    {
        proof {
            assert(keyrun@.push(t@[i as int]) =~= t@.subrange(0, i + 1));
        }
        keyrun.push(t[i]);
        i = i + 1;
    }
    let mut valrun: Vec<u8> = Vec::new();
    let mut j: usize = eq + 1;
    while j < t.len()
        invariant
            eq + 1 <= j <= t@.len(),
            valrun@ == t@.subrange(eq + 1, j as int),
        decreases t@.len() - j,
    {
        proof {
            assert(valrun@.push(t@[j as int]) =~= t@.subrange(eq + 1, j + 1));
        }
        valrun.push(t[j]);
        j = j + 1;
    }
    let key = crate::http::trim_ws_exec(&keyrun);
    let value = crate::http::trim_ws_exec(&valrun);
    let k_provider = "provider".as_bytes_vec();
    let k_list = "list".as_bytes_vec();
    let k_load = "load_last_conversation".as_bytes_vec();
    let k_editor = "editor".as_bytes_vec();
    let k_system = "system_prompt".as_bytes_vec();
    let k_open = "open".as_bytes_vec();
    let k_respond = "respond".as_bytes_vec();
    let k_stream = "stream".as_bytes_vec();
    if crate::http::bytes_eq(&key, &k_provider) {
        let low = ascii_lower_exec(&value);
        let anthropic = "anthropic".as_bytes_vec();
        let openai = "openai".as_bytes_vec();
        let p = if crate::http::bytes_eq(&low, &anthropic) {
            Some(Provider::Anthropic)
        } else if crate::http::bytes_eq(&low, &openai) {
            Some(Provider::OpenAI)
        } else {
            None
        };
        CliConfig { provider: p, ..cli }
    } else if crate::http::bytes_eq(&key, &k_list) {
        CliConfig { list: parse_config_bool(&value), ..cli }
    } else if crate::http::bytes_eq(&key, &k_load) {
        CliConfig { load_last_conversation: parse_config_bool(&value), ..cli }
    } else if crate::http::bytes_eq(&key, &k_editor) {
        CliConfig { editor: parse_config_bool(&value), ..cli }
    } else if crate::http::bytes_eq(&key, &k_system) {
        CliConfig { system_prompt: Some(value), ..cli }
    } else if crate::http::bytes_eq(&key, &k_open) {
        CliConfig { open: parse_config_bool(&value), ..cli }
    } else if crate::http::bytes_eq(&key, &k_respond) {
        CliConfig { respond: parse_config_bool(&value), ..cli }
    } else if crate::http::bytes_eq(&key, &k_stream) {
        CliConfig { stream: parse_config_bool(&value), ..cli }
    } else {
        cli
    }
}

/// Merges the config-file lines into the parsed command line: the command
/// line always wins, so only absent flags pick up file values — here by
/// the caller passing the parsed command line as the starting state.
pub fn merge_with_config(cli: CliConfig, lines: &Vec<Vec<u8>>) -> (r: CliConfig)
    ensures
        r.model() == spec_merge(cli.model(), lines@.map_values(|l: Vec<u8>| l@)),
{
    let ghost model = lines@.map_values(|l: Vec<u8>| l@);
    let ghost cli0 = cli.model();
    let mut acc = cli;
    let mut i: usize = 0;
    proof {
        assert(model.subrange(0, model.len() as int) =~= model);
    }
    while i < lines.len()
        invariant
            i <= lines@.len(),
            model == lines@.map_values(|l: Vec<u8>| l@),
            spec_merge(cli0, model) == spec_merge(
                acc.model(),
                model.subrange(i as int, model.len() as int),
            ),
        decreases lines@.len() - i,
    {
        proof {
            let seg = model.subrange(i as int, model.len() as int);
            assert(seg[0] == model[i as int]);
            assert(model[i as int] == lines@[i as int]@);
            assert(seg.drop_first() =~= model.subrange(i + 1, model.len() as int));
        }
        acc = apply_config_line(acc, &lines[i]);
        i = i + 1;
    }
    proof {
        assert(model.subrange(model.len() as int, model.len() as int) =~= Seq::<Seq<u8>>::empty());
        assert(model.subrange(0, model.len() as int) =~= model);
    }
    acc
}

/// The shell the system editor runs under, recognized by name.
pub enum Shell {
    Bash,
    Zsh,
    Fish,
    Other(Vec<u8>),
}

/// The final path component of `p` (after the last slash), lowered.
pub open spec fn spec_shell_name(p: Seq<u8>) -> Seq<u8> {
    ascii_lower(p.subrange(last_slash(p) + 1, p.len() as int))
}

/// The index of the last slash of `p`, or -1 when it has none.
pub open spec fn last_slash(s: Seq<u8>) -> int
    decreases s.len(),
{
    if s.len() == 0 {
        -1
    } else if s.last() == 0x2f {
        s.len() - 1
    } else {
        last_slash(s.drop_last())
    }
}

impl Shell {
    /// Recognizes the shell from its path: the name after the last slash,
    /// case-insensitively.
    pub fn from_path(shell_path: &str) -> (r: Shell)
        ensures
            ({
                let name = spec_shell_name(shell_path.spec_bytes());
                &&& (name == vstd::utf8::encode_utf8("bash"@) <==> r is Bash)
                &&& (name == vstd::utf8::encode_utf8("zsh"@) <==> r is Zsh)
                &&& (name == vstd::utf8::encode_utf8("fish"@) <==> r is Fish)
                &&& (r matches Shell::Other(o) ==> o@ == name)
            }),
    {
        let p = shell_path.as_bytes_vec();
        let n = p.len();
        let mut cut: usize = n;
        proof {
            assert(p@.subrange(0, n as int) =~= p@);
        }
        while cut > 0 && p[cut - 1] != 0x2f
            invariant
                cut <= n,
                n == p@.len(),
                last_slash(p@) == last_slash(p@.subrange(0, cut as int)),
                forall|j: int| cut <= j < n ==> p@[j] != 0x2f,
            decreases cut,
        {
            proof {
                let cur = p@.subrange(0, cut as int);
                assert(cur.drop_last() =~= p@.subrange(0, cut - 1));
                assert(cur.last() == p@[cut - 1]);
            }
            cut = cut - 1;
        }
        proof {
            let cur = p@.subrange(0, cut as int);
            if cut > 0 {
                assert(cur.last() == p@[cut - 1]);
                assert(last_slash(cur) == cut - 1);
            } else {
                assert(cur =~= Seq::<u8>::empty());
            }
        }
        let mut name: Vec<u8> = Vec::new();
        let mut i: usize = cut;
        while i < n
            invariant
                cut <= i <= n,
                n == p@.len(),
                name@ == p@.subrange(cut as int, i as int),
            decreases n - i,
        {
            proof {
                assert(name@.push(p@[i as int]) =~= p@.subrange(cut as int, i + 1));
            }
            name.push(p[i]);
            i = i + 1;
        }
        let low = ascii_lower_exec(&name);
        let bash = "bash".as_bytes_vec();
        let zsh = "zsh".as_bytes_vec();
        let fish = "fish".as_bytes_vec();
        proof {
            assert(p@.subrange(cut as int, n as int) =~= p@.subrange(
                last_slash(p@) + 1,
                p@.len() as int,
            ));
        }
        proof {
            reveal_strlit("bash");
            reveal_strlit("zsh");
            reveal_strlit("fish");
            vstd::utf8::is_ascii_chars_encode_utf8("bash"@);
            vstd::utf8::is_ascii_chars_encode_utf8("zsh"@);
            vstd::utf8::is_ascii_chars_encode_utf8("fish"@);
            assert(vstd::utf8::encode_utf8("bash"@).len() == 4);
            assert(vstd::utf8::encode_utf8("zsh"@).len() == 3);
            assert(vstd::utf8::encode_utf8("fish"@).len() == 4);
            assert(vstd::utf8::encode_utf8("bash"@)[0] == 'b' as u8);
            assert(vstd::utf8::encode_utf8("fish"@)[0] == 'f' as u8);
        }
        if crate::http::bytes_eq(&low, &bash) {
            Shell::Bash
        } else if crate::http::bytes_eq(&low, &zsh) {
            Shell::Zsh
        } else if crate::http::bytes_eq(&low, &fish) {
            Shell::Fish
        } else {
            Shell::Other(low)
        }
    }

    /// The command that sources the shell's startup file.
    pub fn get_rc_source_command(&self) -> (r: String)
        ensures
            self is Bash ==> r@ == ". ~/.bashrc"@,
            self is Zsh ==> r@ == ". ~/.zshrc"@,
            self is Fish ==> r@ == "source ~/.config/fish/config.fish"@,
            self is Other ==> r@ == ""@,
    {
        match self {
            Shell::Bash => String::from_str(". ~/.bashrc"),
            Shell::Zsh => String::from_str(". ~/.zshrc"),
            Shell::Fish => String::from_str("source ~/.config/fish/config.fish"),
            Shell::Other(_) => String::from_str(""),
        }
    }

    /// The flags that start the shell interactively for one command.
    pub fn get_interactive_args(&self) -> (r: Vec<String>)
        ensures
            self is Fish ==> r@.len() == 1 && r@[0]@ == "-C"@,
            !(self is Fish) ==> r@.len() == 2 && r@[0]@ == "-i"@ && r@[1]@ == "-c"@,
    {
        let mut r: Vec<String> = Vec::new();
        match self {
            Shell::Fish => {
                r.push(String::from_str("-C"));
            },
            _ => {
                r.push(String::from_str("-i"));
                r.push(String::from_str("-c"));
            },
        }
        r
    }
}

} // verus!
