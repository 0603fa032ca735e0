//! The daemon's settings: a file, defaults for what it leaves out, and environment variables that
//! take precedence over it.
use vstd::prelude::*;
use crate::text;

verus! {

/// The settings of the daemon.
#[derive(Debug)]
pub struct Config {
    pub download_dir: String,
    pub listen_port: u16,
    pub persistence_dir: String,
    pub torrents: Option<Vec<String>>,
    pub api_bind_address: String,
    pub api_port: u16,
    pub api_username: String,
    pub api_password: String,
    pub state_db_path: String,
}

/// The contents of a `Config`.
#[verifier::ext_equal]
pub struct ConfigView {
    pub download_dir: Seq<char>,
    pub listen_port: u16,
    pub persistence_dir: Seq<char>,
    pub torrents: Option<Seq<Seq<char>>>,
    pub api_bind_address: Seq<char>,
    pub api_port: u16,
    pub api_username: Seq<char>,
    pub api_password: Seq<char>,
    pub state_db_path: Seq<char>,
}

/// The strings of an optional list.
pub open spec fn list_view(l: Option<Vec<String>>) -> Option<Seq<Seq<char>>> {
    match l {
        Some(v) => Some(text::strings(v@)),
        None => None,
    }
}

impl View for Config {
    type V = ConfigView;

    open spec fn view(&self) -> ConfigView {
        ConfigView {
            download_dir: self.download_dir@,
            listen_port: self.listen_port,
            persistence_dir: self.persistence_dir@,
            torrents: list_view(self.torrents),
            api_bind_address: self.api_bind_address@,
            api_port: self.api_port,
            api_username: self.api_username@,
            api_password: self.api_password@,
            state_db_path: self.state_db_path@,
        }
    }
}

/// The settings as the file gives them; only the download directory has to be there.
pub struct ConfigFile {
    pub download_dir: String,
    pub listen_port: Option<u16>,
    pub persistence_dir: Option<String>,
    pub torrents: Option<Vec<String>>,
    pub api_bind_address: Option<String>,
    pub api_port: Option<u16>,
    pub api_username: Option<String>,
    pub api_password: Option<String>,
    pub state_db_path: Option<String>,
}

/// The environment variables that are set, each under the setting that it overrides.
pub struct EnvOverrides {
    pub download_dir: Option<String>,
    pub listen_port: Option<String>,
    pub persistence_dir: Option<String>,
    pub api_bind_address: Option<String>,
    pub api_port: Option<String>,
    pub api_username: Option<String>,
    pub api_password: Option<String>,
    /// A hash that takes the place of the password, and precedence over it.
    pub api_password_hash: Option<String>,
    pub state_db_path: Option<String>,
}

/// Why settings cannot be used.
#[derive(Clone, Copy, Debug, PartialEq, Eq, Structural)]
pub enum ConfigError {
    /// The variable for the port for peers is not a port number.
    ListenPort,
    /// The variable for the port of the web API is not a port number.
    ApiPort,
}

/// The default port for peers.
pub fn default_listen_port() -> (r: u16)
    ensures
        r == 8080,
{
    8080
}

/// The default directory for `.torrent` files.
pub fn default_persistence_dir() -> (r: String)
    ensures
        r@ == "./data/session"@,
{
    String::from_str("./data/session")
}

/// The default address that the web API listens on.
pub fn default_api_bind_address() -> (r: String)
    ensures
        r@ == "0.0.0.0"@,
{
    String::from_str("0.0.0.0")
}

/// The default port of the web API.
pub fn default_api_port() -> (r: u16)
    ensures
        r == 8181,
{
    8181
}

/// The default name for logging in.
pub fn default_api_username() -> (r: String)
    ensures
        r@ == "admin"@,
{
    String::from_str("admin")
}

/// The default password for logging in.
pub fn default_api_password() -> (r: String)
    ensures
        r@ == "adminadmin"@,
{
    String::from_str("adminadmin")
}

/// The default file for the torrents' records.
pub fn default_state_db_path() -> (r: String)
    ensures
        r@ == "./data/state.redb"@,
{
    String::from_str("./data/state.redb")
}

/// The text, or another if there is none.
pub open spec fn text_or(t: Option<String>, other: Seq<char>) -> Seq<char> {
    match t {
        Some(s) => s@,
        None => other,
    }
}

/// The number, or another if there is none.
pub open spec fn port_or(n: Option<u16>, other: u16) -> u16 {
    match n {
        Some(p) => p,
        None => other,
    }
}

/// The settings of a file, with the defaults for what it leaves out.
pub open spec fn with_defaults(f: ConfigFile) -> ConfigView {
    ConfigView {
        download_dir: f.download_dir@,
        listen_port: port_or(f.listen_port, 8080),
        persistence_dir: text_or(f.persistence_dir, "./data/session"@),
        torrents: list_view(f.torrents),
        api_bind_address: text_or(f.api_bind_address, "0.0.0.0"@),
        api_port: port_or(f.api_port, 8181),
        api_username: text_or(f.api_username, "admin"@),
        api_password: text_or(f.api_password, "adminadmin"@),
        state_db_path: text_or(f.state_db_path, "./data/state.redb"@),
    }
}

/// A decimal digit.
pub open spec fn is_digit(c: char) -> bool {
    '0' <= c <= '9'
}

/// The number that decimal digits stand for.
pub open spec fn digits_value(digits: Seq<char>) -> int
    decreases digits.len(),
{
    if digits.len() == 0 {
        0
    } else {
        10 * digits_value(digits.drop_last()) + (digits.last() as int - '0' as int)
    }
}

/// The digits of a number that may have a plus sign.
pub open spec fn unsigned(t: Seq<char>) -> Seq<char> {
    if t.len() > 0 && t[0] == '+' {
        t.skip(1)
    } else {
        t
    }
}

/// The port number that a text stands for.
pub open spec fn port_value(t: Seq<char>) -> Option<u16> {
    let digits = unsigned(t);
    if digits.len() > 0 && (forall|i: int| 0 <= i < digits.len() ==> is_digit(#[trigger] digits[i]))
        && digits_value(digits) <= 65535 {
        Some(digits_value(digits) as u16)
    } else {
        None
    }
}

proof fn lemma_digits_grow(digits: Seq<char>, n: int)
    requires
        0 <= n <= digits.len(),
        forall|i: int| 0 <= i < digits.len() ==> is_digit(#[trigger] digits[i]),
    ensures
        0 <= digits_value(digits.take(n)) <= digits_value(digits),
    decreases digits.len(),
{
    if n == digits.len() {
        assert(digits.take(n) =~= digits);
        if n > 0 {
            let rest = digits.drop_last();
            lemma_digits_grow(rest, rest.len() as int);
        }
    } else {
        let rest = digits.drop_last();
        lemma_digits_grow(rest, n);
        assert(rest.take(n) =~= digits.take(n));
    }
}

/// Reads a port number: decimal digits, with an optional plus sign, for a number up to 65535.
pub fn parse_port(t: &str) -> (r: Option<u16>)
    ensures
        r == port_value(t@),
{
    let chars = text::chars_of(t);
    let from: usize = if chars.len() > 0 && chars[0] == '+' {
        1
    } else {
        0
    };
    let digits = text::part(&chars, from, chars.len());
    if digits.len() == 0 {
        return None;
    }
    let mut i: usize = 0;
    while i < digits.len()
        invariant
            i <= digits@.len(),
            digits@ == unsigned(t@),
            forall|j: int| 0 <= j < i ==> is_digit(#[trigger] digits@[j]),
        decreases digits@.len() - i,
    {
        if digits[i] < '0' || digits[i] > '9' {
            return None;
        }
        i += 1;
    }
    let mut value: u32 = 0;
    let mut k: usize = 0;
    while k < digits.len()
        invariant
            k <= digits@.len(),
            digits@ == unsigned(t@),
            forall|j: int| 0 <= j < digits@.len() ==> is_digit(#[trigger] digits@[j]),
            value == digits_value(digits@.take(k as int)),
            value <= 65535,
        decreases digits@.len() - k,
    {
        let c = digits[k];
        assert(digits@.take(k + 1).drop_last() =~= digits@.take(k as int));
        let d: u32 = c as u32 - 48;
        value = value * 10 + d;
        k += 1;
        if value > 65535 {
            proof {
                lemma_digits_grow(digits@, k as int);
            }
            return None;
        }
    }
    assert(digits@.take(digits@.len() as int) =~= digits@);
    Some(value as u16)
}

/// The settings after the environment variables have been taken over.
pub open spec fn overridden(c: ConfigView, env: EnvOverrides) -> Result<ConfigView, ConfigError> {
    if env.listen_port matches Some(p) && port_value(p@) is None {
        Err(ConfigError::ListenPort)
    } else if env.api_port matches Some(p) && port_value(p@) is None {
        Err(ConfigError::ApiPort)
    } else {
        Ok(
            ConfigView {
                download_dir: text_or(env.download_dir, c.download_dir),
                listen_port: match env.listen_port {
                    Some(p) => port_value(p@)->0,
                    None => c.listen_port,
                },
                persistence_dir: text_or(env.persistence_dir, c.persistence_dir),
                torrents: c.torrents,
                api_bind_address: text_or(env.api_bind_address, c.api_bind_address),
                api_port: match env.api_port {
                    Some(p) => port_value(p@)->0,
                    None => c.api_port,
                },
                api_username: text_or(env.api_username, c.api_username),
                api_password: text_or(
                    env.api_password_hash,
                    text_or(env.api_password, c.api_password),
                ),
                state_db_path: text_or(env.state_db_path, c.state_db_path),
            },
        )
    }
}

fn or_text(t: Option<String>, other: String) -> (r: String)
    ensures
        r@ == text_or(t, other@),
{
    match t {
        Some(s) => s,
        None => other,
    }
}

impl Config {
    /// The settings of a file, with the defaults for what it leaves out.
    pub fn from_file(f: ConfigFile) -> (r: Config)
        ensures
            r@ == with_defaults(f),
    {
        Config {
            download_dir: f.download_dir,
            listen_port: match f.listen_port {
                Some(p) => p,
                None => default_listen_port(),
            },
            persistence_dir: or_text(f.persistence_dir, default_persistence_dir()),
            torrents: f.torrents,
            api_bind_address: or_text(f.api_bind_address, default_api_bind_address()),
            api_port: match f.api_port {
                Some(p) => p,
                None => default_api_port(),
            },
            api_username: or_text(f.api_username, default_api_username()),
            api_password: or_text(f.api_password, default_api_password()),
            state_db_path: or_text(f.state_db_path, default_state_db_path()),
        }
    }

    /// The settings of a file and the environment variables together.
    pub fn load(f: ConfigFile, env: EnvOverrides) -> (r: Result<Config, ConfigError>)
        ensures
            match r {
                Ok(c) => overridden(with_defaults(f), env) == Ok::<ConfigView, ConfigError>(c@),
                Err(e) => overridden(with_defaults(f), env) == Err::<ConfigView, ConfigError>(e),
            },
    {
        let c = Config::from_file(f);
        let listen_port: u16 = match &env.listen_port {
            Some(p) => match parse_port(p) {
                Some(n) => n,
                None => {
                    return Err(ConfigError::ListenPort);
                },
            },
            None => c.listen_port,
        };
        let api_port: u16 = match &env.api_port {
            Some(p) => match parse_port(p) {
                Some(n) => n,
                None => {
                    return Err(ConfigError::ApiPort);
                },
            },
            None => c.api_port,
        };
        Ok(
            Config {
                download_dir: or_text(env.download_dir, c.download_dir),
                listen_port,
                persistence_dir: or_text(env.persistence_dir, c.persistence_dir),
                torrents: c.torrents,
                api_bind_address: or_text(env.api_bind_address, c.api_bind_address),
                api_port,
                api_username: or_text(env.api_username, c.api_username),
                api_password: or_text(
                    env.api_password_hash,
                    or_text(env.api_password, c.api_password),
                ),
                state_db_path: or_text(env.state_db_path, c.state_db_path),
            },
        )
    }
}

/// Variables that are not set leave the settings as they are.
pub proof fn unset_variables_change_nothing(c: ConfigView, env: EnvOverrides)
    requires
        env == (EnvOverrides {
            download_dir: None,
            listen_port: None,
            persistence_dir: None,
            api_bind_address: None,
            api_port: None,
            api_username: None,
            api_password: None,
            api_password_hash: None,
            state_db_path: None,
        }),
    ensures
        overridden(c, env) == Ok::<ConfigView, ConfigError>(c),
{
}

/// A variable that is set takes precedence over the file, and the password hash over the password;
/// a setting whose variable is not set stays as the file gives it.
pub proof fn variables_take_precedence(c: ConfigView, env: EnvOverrides)
    requires
        overridden(c, env) is Ok,
    ensures
        ({
            let r = overridden(c, env)->Ok_0;
            &&& r.download_dir == text_or(env.download_dir, c.download_dir)
            &&& env.listen_port matches Some(s) ==> port_value(s@) == Some(r.listen_port)
            &&& env.listen_port is None ==> r.listen_port == c.listen_port
            &&& r.persistence_dir == text_or(env.persistence_dir, c.persistence_dir)
            &&& r.torrents == c.torrents
            &&& r.api_bind_address == text_or(env.api_bind_address, c.api_bind_address)
            &&& env.api_port matches Some(s) ==> port_value(s@) == Some(r.api_port)
            &&& env.api_port is None ==> r.api_port == c.api_port
            &&& r.api_username == text_or(env.api_username, c.api_username)
            &&& env.api_password_hash matches Some(s) ==> r.api_password == s@
            &&& env.api_password_hash is None ==> r.api_password == text_or(
                env.api_password,
                c.api_password,
            )
            &&& r.state_db_path == text_or(env.state_db_path, c.state_db_path)
        }),
{
}

/// Whether the variables can be used does not depend on the file.
pub proof fn variables_are_judged_alone(c: ConfigView, other: ConfigView, env: EnvOverrides)
    ensures
        overridden(c, env) is Ok == overridden(other, env) is Ok,
{
}

/// What the file says is taken over, and each setting that it leaves out has its own default.
pub proof fn defaults_fill_only_gaps(f: ConfigFile)
    ensures
        ({
            let c = with_defaults(f);
            &&& c.download_dir == f.download_dir@
            &&& f.listen_port matches Some(p) ==> c.listen_port == p
            &&& f.listen_port is None ==> c.listen_port == 8080
            &&& f.persistence_dir matches Some(s) ==> c.persistence_dir == s@
            &&& f.persistence_dir is None ==> c.persistence_dir == "./data/session"@
            &&& f.torrents matches Some(l) ==> c.torrents == Some(text::strings(l@))
            &&& f.torrents is None ==> c.torrents is None
            &&& f.api_bind_address matches Some(s) ==> c.api_bind_address == s@
            &&& f.api_bind_address is None ==> c.api_bind_address == "0.0.0.0"@
            &&& f.api_port matches Some(p) ==> c.api_port == p
            &&& f.api_port is None ==> c.api_port == 8181
            &&& f.api_username matches Some(s) ==> c.api_username == s@
            &&& f.api_username is None ==> c.api_username == "admin"@
            &&& f.api_password matches Some(s) ==> c.api_password == s@
            &&& f.api_password is None ==> c.api_password == "adminadmin"@
            &&& f.state_db_path matches Some(s) ==> c.state_db_path == s@
            &&& f.state_db_path is None ==> c.state_db_path == "./data/state.redb"@
        }),
{
}

/// Each variable changes its own setting: all others are what they would be without it.
pub proof fn variables_change_their_setting_only(c: ConfigView, env: EnvOverrides)
    requires
        overridden(c, env) is Ok,
    ensures
        ({
            let r = overridden(c, env)->Ok_0;
            &&& env.download_dir matches Some(s) ==> r.download_dir == s@
            &&& env.download_dir is None ==> r.download_dir == c.download_dir
            &&& env.persistence_dir matches Some(s) ==> r.persistence_dir == s@
            &&& env.persistence_dir is None ==> r.persistence_dir == c.persistence_dir
            &&& env.api_bind_address matches Some(s) ==> r.api_bind_address == s@
            &&& env.api_bind_address is None ==> r.api_bind_address == c.api_bind_address
            &&& env.api_username matches Some(s) ==> r.api_username == s@
            &&& env.api_username is None ==> r.api_username == c.api_username
            &&& env.api_password_hash is None ==> (env.api_password matches Some(s)
                ==> r.api_password == s@)
            &&& env.api_password_hash is None && env.api_password is None ==> r.api_password
                == c.api_password
            &&& env.state_db_path matches Some(s) ==> r.state_db_path == s@
            &&& env.state_db_path is None ==> r.state_db_path == c.state_db_path
        }),
{
}

/// Variables are refused exactly for a port that is none, the one for peers before the other.
pub proof fn only_bad_ports_are_refused(c: ConfigView, env: EnvOverrides)
    ensures
        ({
            let bad_listen = env.listen_port is Some && port_value(env.listen_port->0@) is None;
            let bad_api = env.api_port is Some && port_value(env.api_port->0@) is None;
            &&& bad_listen <==> overridden(c, env) == Err::<ConfigView, ConfigError>(
                ConfigError::ListenPort,
            )
            &&& !bad_listen && bad_api <==> overridden(c, env) == Err::<ConfigView, ConfigError>(
                ConfigError::ApiPort,
            )
        }),
{
}

/// Ports are read as decimal numbers: a digit stands for itself, with or without a plus sign before
/// it, and each digit that follows counts one while those before count ten times, as long as the
/// number is at most 65535. Nothing else is a port.
pub proof fn ports_are_read_in_decimal(t: Seq<char>, c: char)
    ensures
        ({
            let d = c as int - '0' as int;
            let is_one = 0 <= d <= 9;
            &&& port_value(Seq::empty()) is None
            &&& port_value(seq!['+']) is None
            &&& is_one ==> port_value(seq![c]) == Some(d as u16)
            &&& is_one ==> port_value(seq!['+', c]) == Some(d as u16)
            &&& !is_one ==> port_value(t.push(c)) is None
            &&& is_one && t.len() > 0 && t != seq!['+'] ==> match port_value(t) {
                Some(n) => port_value(t.push(c)) == if 10 * n + d <= 65535 {
                    Some((10 * n + d) as u16)
                } else {
                    None
                },
                None => port_value(t.push(c)) is None,
            }
        }),
{
    let d = c as int - '0' as int;
    let e = Seq::<char>::empty();
    assert(unsigned(e) =~= e);
    assert(unsigned(seq!['+']) =~= e);
    assert(seq![c].drop_last() =~= e);
    assert(digits_value(e) == 0);
    assert(digits_value(seq![c]) == d);
    assert(seq!['+', c].skip(1) =~= seq![c]);
    let u = t.push(c);
    if !(0 <= d <= 9) {
        if t.len() > 0 && t[0] == '+' {
            assert(unsigned(u) =~= t.skip(1).push(c));
            assert(unsigned(u)[unsigned(u).len() - 1] == c);
        } else if t.len() > 0 {
            assert(unsigned(u)[unsigned(u).len() - 1] == c);
        } else if c == '+' {
            assert(unsigned(u).len() == 0);
        } else {
            assert(unsigned(u)[0] == c);
        }
    } else if t.len() > 0 && t != seq!['+'] {
        let before = unsigned(t);
        let after = unsigned(u);
        assert(after =~= before.push(c));
        assert(after.drop_last() =~= before);
        assert(before.len() > 0) by {
            if before.len() == 0 {
                assert(t =~= seq!['+']);
            }
        }
        assert(digits_value(after) == 10 * digits_value(before) + d);
        if forall|i: int| 0 <= i < after.len() ==> is_digit(#[trigger] after[i]) {
            assert forall|i: int| 0 <= i < before.len() implies is_digit(#[trigger] before[i]) by {
                assert(after[i] == before[i]);
            }
            lemma_digits_grow(before, 0);
        }
        if forall|i: int| 0 <= i < before.len() ==> is_digit(#[trigger] before[i]) {
            assert forall|i: int| 0 <= i < after.len() implies is_digit(#[trigger] after[i]) by {
                if i < before.len() {
                    assert(after[i] == before[i]);
                }
            }
            lemma_digits_grow(before, 0);
        }
    }
}

} // verus!
