//! The addresses that the relay listens on and connects to.
//!
//! Each of the four settings comes from the process environment where it is
//! set, and has a default where it is not. A value that is set and cannot be
//! used is an error: it is never replaced by the default.

use vstd::prelude::*;
use vstd::string::*;

verus! {

/// The port to listen on where none is set.
pub const DEFAULT_BIND_PORT: u16 = 8003;

/// The backend's port where none is set.
pub const DEFAULT_BACKEND_PORT: u16 = 8002;

/// The host to listen on, and the host of the backend, where none is set.
pub open spec fn default_host() -> Seq<char> {
    "localhost"@
}

/// One of the four settings.
#[derive(Debug, Clone, Copy, PartialEq, Eq, Structural)]
pub enum Setting {
    /// The host to listen on.
    BindHost,
    /// The port to listen on.
    BindPort,
    /// The backend's host.
    BackendHost,
    /// The backend's port.
    BackendPort,
}

/// Why the settings could not be made up.
#[derive(Debug, Clone, Copy, PartialEq, Eq, Structural)]
pub enum ConfigError {
    /// The value of this setting is not valid Unicode.
    NotUnicode(Setting),
    /// The value of this setting is not a port number.
    Unparsable(Setting),
}

/// What the environment holds for one setting.
#[derive(Debug, Clone, PartialEq, Eq)]
pub enum Lookup {
    /// The variable is not set.
    Unset,
    /// The variable is set to something that is not valid Unicode.
    NotUnicode,
    /// The variable is set to this text.
    Value(String),
}

/// The mathematical value of a [`Lookup`].
pub enum LookupView {
    Unset,
    NotUnicode,
    Value(Seq<char>),
}

impl View for Lookup {
    type V = LookupView;

    open spec fn view(&self) -> LookupView {
        match self {
            Lookup::Unset => LookupView::Unset,
            Lookup::NotUnicode => LookupView::NotUnicode,
            Lookup::Value(text) => LookupView::Value(text@),
        }
    }
}

/// The settings of the relay.
#[derive(Debug, Clone, PartialEq, Eq)]
pub struct Config {
    /// The host to listen on.
    pub bind_host: String,
    /// The port to listen on.
    pub bind_port: u16,
    /// The backend's host.
    pub backend_host: String,
    /// The backend's port.
    pub backend_port: u16,
}

/// The mathematical value of a [`Config`].
pub struct ConfigView {
    pub bind_host: Seq<char>,
    pub bind_port: u16,
    pub backend_host: Seq<char>,
    pub backend_port: u16,
}

impl View for Config {
    type V = ConfigView;

    open spec fn view(&self) -> ConfigView {
        ConfigView {
            bind_host: self.bind_host@,
            bind_port: self.bind_port,
            backend_host: self.backend_host@,
            backend_port: self.backend_port,
        }
    }
}

/// Whether `c` is a decimal digit.
pub open spec fn is_digit(c: char) -> bool {
    '0' <= c <= '9'
}

/// Whether `text` is made of decimal digits only.
pub open spec fn is_digits(text: Seq<char>) -> bool {
    forall|i: int| 0 <= i < text.len() ==> is_digit(#[trigger] text[i])
}

/// The number that the decimal digits of `text` stand for.
pub open spec fn decimal_value(text: Seq<char>) -> nat
    decreases text.len(),
{
    if text.len() == 0 {
        0
    } else {
        (decimal_value(text.drop_last()) * 10 + (text.last() as u32 - 48)) as nat
    }
}

/// The character of the digit `d`.
pub open spec fn digit_char(d: nat) -> char {
    ((48 + d) as u32) as char
}

/// The decimal digits of `n`, without leading zeros.
pub open spec fn decimal_text(n: nat) -> Seq<char>
    decreases n,
{
    if n < 10 {
        seq![digit_char(n)]
    } else {
        decimal_text(n / 10).push(digit_char(n % 10))
    }
}

/// What is left of `text` without the plus sign that it may start with.
pub open spec fn unsigned_part(text: Seq<char>) -> Seq<char> {
    if text.len() > 0 && text[0] == '+' {
        text.drop_first()
    } else {
        text
    }
}

/// The port that `text` names, if it names one: an optional plus sign, then
/// one or more decimal digits that stand for a number of at most 65535.
pub open spec fn port_of(text: Seq<char>) -> Option<u16> {
    let digits = unsigned_part(text);
    if digits.len() > 0 && is_digits(digits) && decimal_value(digits) <= 65535 {
        Some(decimal_value(digits) as u16)
    } else {
        None
    }
}

/// The address of `host` and `port`, as the host, a colon and the port in
/// decimal.
pub open spec fn address_of(host: Seq<char>, port: u16) -> Seq<char> {
    host + seq![':'] + decimal_text(port as nat)
}

/// The host that a lookup gives, or why it gives none.
pub open spec fn host_of(lookup: LookupView, setting: Setting) -> Result<Seq<char>, ConfigError> {
    match lookup {
        LookupView::Unset => Ok(default_host()),
        LookupView::NotUnicode => Err(ConfigError::NotUnicode(setting)),
        LookupView::Value(text) => Ok(text),
    }
}

/// The port that a lookup gives, or why it gives none.
pub open spec fn port_setting_of(lookup: LookupView, setting: Setting, default: u16) -> Result<
    u16,
    ConfigError,
> {
    match lookup {
        LookupView::Unset => Ok(default),
        LookupView::NotUnicode => Err(ConfigError::NotUnicode(setting)),
        LookupView::Value(text) => match port_of(text) {
            Some(port) => Ok(port),
            None => Err(ConfigError::Unparsable(setting)),
        },
    }
}

/// The settings that four lookups give. The backend's settings are made up
/// first, the host before the port, so that of several unusable values the
/// first in that order is the one reported.
pub open spec fn config_of(
    bind_host: LookupView,
    bind_port: LookupView,
    backend_host: LookupView,
    backend_port: LookupView,
) -> Result<ConfigView, ConfigError> {
    match host_of(backend_host, Setting::BackendHost) {
        Err(e) => Err(e),
        Ok(backend_host) => match port_setting_of(
            backend_port,
            Setting::BackendPort,
            DEFAULT_BACKEND_PORT,
        ) {
            Err(e) => Err(e),
            Ok(backend_port) => match host_of(bind_host, Setting::BindHost) {
                Err(e) => Err(e),
                Ok(bind_host) => match port_setting_of(
                    bind_port,
                    Setting::BindPort,
                    DEFAULT_BIND_PORT,
                ) {
                    Err(e) => Err(e),
                    Ok(bind_port) => Ok(
                        ConfigView { bind_host, bind_port, backend_host, backend_port },
                    ),
                },
            },
        },
    }
}

/// The digits at the front of a text stand for no more than the whole text.
proof fn lemma_decimal_value_grows(text: Seq<char>, k: int)
    requires
        0 <= k <= text.len(),
        is_digits(text),
    ensures
        decimal_value(text.take(k)) <= decimal_value(text),
    decreases text.len() - k,
{
    if k < text.len() {
        let front = text.drop_last();
        assert(is_digits(front)) by {
            assert forall|i: int| 0 <= i < front.len() implies is_digit(#[trigger] front[i]) by {
                assert(front[i] == text[i]);
            }
        }
        assert(is_digit(text[text.len() - 1]));
        if k < front.len() {
            lemma_decimal_value_grows(front, k);
        }
        assert(front.take(k) =~= text.take(k));
        assert(front.take(front.len() as int) =~= front);
    } else {
        assert(text.take(k) =~= text);
    }
}

/// The decimal text of a number is made of digits, at least one, and stands
/// for that number.
proof fn lemma_decimal_text(n: nat)
    ensures
        decimal_text(n).len() > 0,
        is_digits(decimal_text(n)),
        decimal_value(decimal_text(n)) == n,
    decreases n,
{
    let text = decimal_text(n);
    if n < 10 {
        assert(text.drop_last() =~= Seq::<char>::empty());
        assert(decimal_value(text.drop_last()) == 0);
    } else {
        lemma_decimal_text(n / 10);
        assert(text.drop_last() =~= decimal_text(n / 10));
        assert(text.last() == digit_char(n % 10));
        assert forall|i: int| 0 <= i < text.len() implies is_digit(#[trigger] text[i]) by {
            if i < text.len() - 1 {
                assert(text[i] == decimal_text(n / 10)[i]);
            }
        }
    }
}

/// A port that was written can be read again: the decimal text of a port
/// names that port.
pub proof fn lemma_port_text_parses(port: u16)
    ensures
        port_of(decimal_text(port as nat)) == Some(port),
{
    lemma_decimal_text(port as nat);
    assert(is_digit(decimal_text(port as nat)[0]));
}

/// Reads a port number.
pub fn parse_port(text: &str) -> (port: Option<u16>)
    ensures
        port == port_of(text@),
{
    if !text.is_ascii() {
        proof {
            let at = choose|i: int|
                0 <= i < text@.len() && !('\0' <= #[trigger] text@[i] <= '\u{7f}');
            assert(!is_digit(text@[at]));
            if text@[0] == '+' {
                assert(at > 0);
                assert(text@.drop_first()[at - 1] == text@[at]);
            }
        }
        return None;
    }
    proof {
        is_ascii_spec_bytes(text);
    }
    let bytes = text.as_bytes();
    let n = bytes.len();
    assert(forall|j: int| 0 <= j < n ==> bytes@[j] == text@[j] as u8);
    let mut i: usize = 0;
    if n > 0 && bytes[0] == 0x2b {
        i = 1;
    }
    let start = i;
    let ghost digits = text@.skip(start as int);
    assert(digits =~= unsigned_part(text@));
    if i == n {
        return None;
    }
    let mut value: u32 = 0;
    assert(digits.take(0) =~= Seq::<char>::empty());
    while i < n
        invariant
            start <= i <= n,
            n == text@.len(),
            n == bytes@.len(),
            is_ascii(text),
            forall|j: int| 0 <= j < n ==> bytes@[j] == text@[j] as u8,
            digits == text@.skip(start as int),
            digits == unsigned_part(text@),
            is_digits(digits.take(i - start)),
            value == decimal_value(digits.take(i - start)),
            value <= 65535,
        decreases n - i,
    {
        let b = bytes[i];
        let ghost front = digits.take(i - start);
        let ghost longer = digits.take(i + 1 - start);
        assert(digits[i - start] == text@[i as int]);
        assert('\0' <= text@[i as int] <= '\u{7f}');
        if b < 0x30 || b > 0x39 {
            assert(!is_digit(digits[i - start]));
            return None;
        }
        value = value * 10 + (b - 0x30) as u32;
        proof {
            assert(longer.drop_last() =~= front);
            assert(longer.last() == text@[i as int]);
            assert(is_digits(longer)) by {
                assert forall|j: int| 0 <= j < longer.len() implies is_digit(
                    #[trigger] longer[j],
                ) by {
                    if j < front.len() {
                        assert(longer[j] == front[j]);
                    }
                }
            }
            assert(value == decimal_value(longer));
        }
        if value > 65535 {
            proof {
                if is_digits(digits) {
                    lemma_decimal_value_grows(digits, i + 1 - start);
                }
            }
            return None;
        }
        i = i + 1;
    }
    assert(digits.take(n - start) =~= digits);
    Some(value as u16)
}

/// The text of one decimal digit.
fn digit_text(d: u16) -> (text: &'static str)
    requires
        d < 10,
    ensures
        text@ == seq![digit_char(d as nat)],
{
    proof {
        reveal_strlit("0");
        reveal_strlit("1");
        reveal_strlit("2");
        reveal_strlit("3");
        reveal_strlit("4");
        reveal_strlit("5");
        reveal_strlit("6");
        reveal_strlit("7");
        reveal_strlit("8");
        reveal_strlit("9");
    }
    let text = match d {
        0 => "0",
        1 => "1",
        2 => "2",
        3 => "3",
        4 => "4",
        5 => "5",
        6 => "6",
        7 => "7",
        8 => "8",
        _ => "9",
    };
    assert(text@ =~= seq![digit_char(d as nat)]);
    text
}

/// Writes a port number in decimal.
pub fn port_text(port: u16) -> (text: String)
    ensures
        text@ == decimal_text(port as nat),
    decreases port,
{
    if port < 10 {
        String::from_str(digit_text(port))
    } else {
        let mut text = port_text(port / 10);
        text.append(digit_text(port % 10));
        assert(text@ =~= decimal_text(port as nat));
        text
    }
}

/// Joins a host and a port into an address.
pub fn address(host: &str, port: u16) -> (text: String)
    ensures
        text@ == address_of(host@, port),
{
    proof {
        reveal_strlit(":");
    }
    let mut text = String::from_str(host);
    text.append(":");
    let digits = port_text(port);
    text.append(digits.as_str());
    assert(text@ =~= address_of(host@, port));
    text
}

/// The host that a lookup gives, or why it gives none.
fn host_setting(lookup: Lookup, setting: Setting) -> (host: Result<String, ConfigError>)
    ensures
        match host {
            Ok(text) => host_of(lookup@, setting) == Ok::<Seq<char>, ConfigError>(text@),
            Err(e) => host_of(lookup@, setting) == Err::<Seq<char>, ConfigError>(e),
        },
{
    match lookup {
        Lookup::Unset => Ok(String::from_str("localhost")),
        Lookup::NotUnicode => Err(ConfigError::NotUnicode(setting)),
        Lookup::Value(text) => Ok(text),
    }
}

/// The port that a lookup gives, or why it gives none.
fn port_setting(lookup: Lookup, setting: Setting, default: u16) -> (port: Result<
    u16,
    ConfigError,
>)
    ensures
        port == port_setting_of(lookup@, setting, default),
{
    match lookup {
        Lookup::Unset => Ok(default),
        Lookup::NotUnicode => Err(ConfigError::NotUnicode(setting)),
        Lookup::Value(text) => match parse_port(text.as_str()) {
            Some(port) => Ok(port),
            None => Err(ConfigError::Unparsable(setting)),
        },
    }
}

/// Makes up the settings from what the environment holds for each of them.
/// The result depends on the four lookups alone: made up again from the same
/// lookups, the settings are the same.
pub fn init(
    bind_host: Lookup,
    bind_port: Lookup,
    backend_host: Lookup,
    backend_port: Lookup,
) -> (config: Result<Config, ConfigError>)
    ensures
        match config {
            Ok(c) => config_of(bind_host@, bind_port@, backend_host@, backend_port@) == Ok::<
                ConfigView,
                ConfigError,
            >(c@),
            Err(e) => config_of(bind_host@, bind_port@, backend_host@, backend_port@) == Err::<
                ConfigView,
                ConfigError,
            >(e),
        },
{
    let backend_host = match host_setting(backend_host, Setting::BackendHost) {
        Ok(host) => host,
        Err(e) => {
            return Err(e);
        },
    };
    let backend_port = match port_setting(
        backend_port,
        Setting::BackendPort,
        DEFAULT_BACKEND_PORT,
    ) {
        Ok(port) => port,
        Err(e) => {
            return Err(e);
        },
    };
    let bind_host = match host_setting(bind_host, Setting::BindHost) {
        Ok(host) => host,
        Err(e) => {
            return Err(e);
        },
    };
    let bind_port = match port_setting(bind_port, Setting::BindPort, DEFAULT_BIND_PORT) {
        Ok(port) => port,
        Err(e) => {
            return Err(e);
        },
    };
    Ok(Config { bind_host, bind_port, backend_host, backend_port })
}

impl Config {
    /// The address to listen on.
    pub fn bind_addr(&self) -> (text: String)
        ensures
            text@ == address_of(self@.bind_host, self@.bind_port),
    {
        address(self.bind_host.as_str(), self.bind_port)
    }

    /// The address of the backend.
    pub fn backend_addr(&self) -> (text: String)
        ensures
            text@ == address_of(self@.backend_host, self@.backend_port),
    {
        address(self.backend_host.as_str(), self.backend_port)
    }
}

} // verus!
