//! How connections over TCP are secured.
use crate::application_logging::{setting, setting_word};
use crate::connection::{digits_value, number_value};
use crate::error::{bad_input, Error, Failure};
use crate::text::{
    concat3, cut_last, opt_text, owned, rsplit_once, same, split, split_parts, texts, to_chars, trim,
    trimmed,
};
use vstd::prelude::*;

verus! {

/// Who issues the certificates: the server itself, or its operator; or there are none.
#[derive(Debug, Clone, Copy, PartialEq, Eq, Structural)]
pub enum SecurityMode {
    Managed,
    External,
    Disabled,
}

/// The settings for connections over TCP.
#[derive(Debug, PartialEq, Eq)]
pub struct TransportSecurity {
    pub mode: Option<SecurityMode>,
    pub security_dir: Option<String>,
    pub server_names: Vec<String>,
    pub server_ips: Vec<String>,
    pub server_certificate: Option<String>,
    pub server_private_key: Option<String>,
    pub trusted_client_ca_bundles: Vec<String>,
    /// Whether connections without authentication are accepted from other machines.
    pub unsafe_allow_remote_disabled: bool,
}

/// The model of the settings.
#[verifier::ext_equal]
pub struct TransportModel {
    pub mode: Option<SecurityMode>,
    pub security_dir: Option<Seq<char>>,
    pub server_names: Seq<Seq<char>>,
    pub server_ips: Seq<Seq<char>>,
    pub server_certificate: Option<Seq<char>>,
    pub server_private_key: Option<Seq<char>>,
    pub trusted_client_ca_bundles: Seq<Seq<char>>,
    pub unsafe_allow_remote_disabled: bool,
}

impl View for TransportSecurity {
    type V = TransportModel;

    open spec fn view(&self) -> TransportModel {
        TransportModel {
            mode: self.mode,
            security_dir: opt_text(self.security_dir),
            server_names: texts(self.server_names@),
            server_ips: texts(self.server_ips@),
            server_certificate: opt_text(self.server_certificate),
            server_private_key: opt_text(self.server_private_key),
            trusted_client_ca_bundles: texts(self.trusted_client_ca_bundles@),
            unsafe_allow_remote_disabled: self.unsafe_allow_remote_disabled,
        }
    }
}

/// The settings where none is given.
pub open spec fn default_transport() -> TransportModel {
    TransportModel {
        mode: None,
        security_dir: None,
        server_names: Seq::empty(),
        server_ips: Seq::empty(),
        server_certificate: None,
        server_private_key: None,
        trusted_client_ca_bundles: Seq::empty(),
        unsafe_allow_remote_disabled: false,
    }
}

impl Default for TransportSecurity {
    fn default() -> (r: Self)
        ensures
            r@ == default_transport(),
    {
        let r = TransportSecurity {
            mode: None,
            security_dir: None,
            server_names: Vec::new(),
            server_ips: Vec::new(),
            server_certificate: None,
            server_private_key: None,
            trusted_client_ca_bundles: Vec::new(),
            unsafe_allow_remote_disabled: false,
        };
        assert(r@ =~= default_transport());
        r
    }
}

/// The settings as they are written down: what is not given is left out.
pub struct RawTransportSecurity {
    pub mode: Option<String>,
    pub security_dir: Option<String>,
    pub server_names: Option<Vec<String>>,
    pub server_ips: Option<Vec<String>>,
    pub server_certificate: Option<String>,
    pub server_private_key: Option<String>,
    pub trusted_client_ca_bundles: Option<Vec<String>>,
    pub unsafe_allow_remote_disabled: Option<bool>,
}

/// The mode that a setting names.
pub open spec fn security_mode_named(raw: Seq<char>) -> Result<SecurityMode, Failure> {
    let w = setting_word(raw);
    if w == "managed"@ {
        Ok(SecurityMode::Managed)
    } else if w == "external"@ {
        Ok(SecurityMode::External)
    } else if w == "disabled"@ {
        Ok(SecurityMode::Disabled)
    } else {
        Err(
            bad_input(
                "Unsupported security mode '"@ + w + "'; expected managed, external, or disabled"@,
            ),
        )
    }
}

impl SecurityMode {
    pub fn parse(raw: &str) -> (r: Result<Self, Error>)
        ensures
            match (security_mode_named(raw@), r) {
                (Ok(a), Ok(b)) => a == b,
                (Err(f), Err(e)) => e@ == f,
                _ => false,
            },
    {
        let word = setting(raw);
        let w = word.as_str();
        if same(w, "managed") {
            Ok(SecurityMode::Managed)
        } else if same(w, "external") {
            Ok(SecurityMode::External)
        } else if same(w, "disabled") {
            Ok(SecurityMode::Disabled)
        } else {
            Err(
                Error::invalid_input(
                    concat3(
                        "Unsupported security mode '",
                        w,
                        "'; expected managed, external, or disabled",
                    ),
                ),
            )
        }
    }
}

/// The texts that are given, or none.
pub open spec fn given_texts(list: Option<Vec<String>>) -> Seq<Seq<char>> {
    match list {
        Some(list) => texts(list@),
        None => Seq::empty(),
    }
}

fn list_or_none(list: Option<Vec<String>>) -> (r: Vec<String>)
    ensures
        texts(r@) == given_texts(list),
{
    match list {
        Some(list) => list,
        None => {
            let none: Vec<String> = Vec::new();
            assert(texts(none@) =~= Seq::empty());
            none
        },
    }
}

/// The settings that are written down, or why they are refused.
pub open spec fn transport_given(raw: RawTransportSecurity) -> Result<TransportModel, Failure> {
    let settings = TransportModel {
        mode: None,
        security_dir: opt_text(raw.security_dir),
        server_names: given_texts(raw.server_names),
        server_ips: given_texts(raw.server_ips),
        server_certificate: opt_text(raw.server_certificate),
        server_private_key: opt_text(raw.server_private_key),
        trusted_client_ca_bundles: given_texts(raw.trusted_client_ca_bundles),
        unsafe_allow_remote_disabled: raw.unsafe_allow_remote_disabled == Some(true),
    };
    match raw.mode {
        None => Ok(settings),
        Some(name) => match security_mode_named(name@) {
            Ok(mode) => Ok(TransportModel { mode: Some(mode), ..settings }),
            Err(f) => Err(f),
        },
    }
}

impl RawTransportSecurity {
    pub fn resolve(self) -> (r: Result<TransportSecurity, Error>)
        ensures
            match (transport_given(self), r) {
                (Ok(m), Ok(settings)) => settings@ == m,
                (Err(f), Err(e)) => e@ == f,
                _ => false,
            },
    {
        let mode = match &self.mode {
            None => None,
            Some(name) => match SecurityMode::parse(name.as_str()) {
                Ok(mode) => Some(mode),
                Err(e) => {
                    return Err(e);
                },
            },
        };
        let unsafe_allow_remote_disabled = match self.unsafe_allow_remote_disabled {
            Some(allowed) => allowed,
            None => false,
        };
        Ok(
            TransportSecurity {
                mode,
                security_dir: self.security_dir,
                server_names: list_or_none(self.server_names),
                server_ips: list_or_none(self.server_ips),
                server_certificate: self.server_certificate,
                server_private_key: self.server_private_key,
                trusted_client_ca_bundles: list_or_none(self.trusted_client_ca_bundles),
                unsafe_allow_remote_disabled,
            },
        )
    }
}

/// The host of an address to listen on: what stands before the last colon.
pub open spec fn bind_host(bind: Seq<char>) -> Seq<char> {
    match cut_last(trimmed(bind), ':') {
        Some((host, _)) => host,
        None => trimmed(bind),
    }
}

/// Whether an address to listen on is reached from this machine alone.
pub open spec fn is_loopback(bind: Seq<char>) -> bool {
    let host = bind_host(bind);
    host == "localhost"@ || host == "[::1]"@ || is_loopback_address(split_parts(host, '.'))
}

/// The number below 256 that a part of an address stands for: digits, the first of which is no
/// zero unless it is the only one.
pub open spec fn octet(part: Seq<char>) -> Option<nat> {
    match number_value(part) {
        Some(n) => if n < 256 && part[0] != '+' && (part.len() == 1 || part[0] != '0') {
            Some(n)
        } else {
            None
        },
        None => None,
    }
}

/// Whether the parts of an address are four numbers, the first of which is 127.
pub open spec fn is_loopback_address(parts: Seq<Seq<char>>) -> bool {
    &&& parts.len() == 4
    &&& octet(parts[0]) == Some(127nat)
    &&& octet(parts[1]) is Some
    &&& octet(parts[2]) is Some
    &&& octet(parts[3]) is Some
}

/// The digits from position `i` on leave a value that is too large too large.
proof fn lemma_digits_grow(s: Seq<char>, i: int, value: nat)
    ensures
        digits_value(s, i, value) matches Some(n) ==> n >= value,
    decreases s.len() - i,
{
    if 0 <= i < s.len() && '0' <= s[i] <= '9' {
        lemma_digits_grow(s, i + 1, (value * 10 + (s[i] as u32 - '0' as u32)) as nat);
    }
}

fn read_octet(part: &str) -> (r: Option<u64>)
    ensures
        match r {
            Some(n) => octet(part@) == Some(n as nat),
            None => octet(part@) is None,
        },
{
    let chars = to_chars(part);
    if chars.len() == 0 || chars[0] == '+' {
        return None;
    }
    if chars.len() > 1 && chars[0] == '0' {
        return None;
    }
    let mut value: u64 = 0;
    let mut i: usize = 0;
    while i < chars.len()
        invariant
            i <= chars@.len(),
            chars@ == part@,
            value < 256,
            digits_value(part@, 0, 0) == digits_value(part@, i as int, value as nat),
        decreases chars@.len() - i,
    {
        let c = chars[i];
        assert(c == part@[i as int]);
        if !('0' <= c && c <= '9') {
            return None;
        }
        value = value * 10 + (c as u64 - '0' as u64);
        i = i + 1;
        proof {
            lemma_digits_grow(part@, i as int, value as nat);
        }
        if value >= 256 {
            return None;
        }
    }
    Some(value)
}

fn has_loopback_parts(parts: &Vec<String>) -> (r: bool)
    ensures
        r == is_loopback_address(texts(parts@)),
{
    let ghost names = texts(parts@);
    assert(names.len() == parts@.len());
    if parts.len() != 4 {
        return false;
    }
    assert(names[0] == parts@[0]@ && names[1] == parts@[1]@);
    assert(names[2] == parts@[2]@ && names[3] == parts@[3]@);
    let first = match read_octet(parts[0].as_str()) {
        Some(n) => n == 127,
        None => false,
    };
    first && read_octet(parts[1].as_str()).is_some() && read_octet(parts[2].as_str()).is_some()
        && read_octet(parts[3].as_str()).is_some()
}

pub fn is_loopback_bind(bind: &str) -> (r: bool)
    ensures
        r == is_loopback(bind@),
{
    let bare = trim(bind);
    let host: String = match rsplit_once(bare.as_str(), ':') {
        Some((host, _)) => host,
        None => owned(bare.as_str()),
    };
    let parts = split(host.as_str(), '.');
    same(host.as_str(), "localhost") || same(host.as_str(), "[::1]") || has_loopback_parts(&parts)
}

} // verus!
