//! Connection strings: where a database is, and how it is reached.
use crate::error::{bad_input, Error, ErrorKind, Failure};
use crate::text::{
    after_prefix, concat2, cut_last, first_solid, has_char, has_part, has_prefix, is_space, owned,
    rsplit_once, solid_end, stands_at, starts_with, strip_prefix, trim, trim_char, trim_start_char,
    trimmed, without_around, without_leading,
};
use vstd::prelude::*;

pub mod laws;

verus! {

pub const DEFAULT_NETWORK_PORT: u16 = 24842;

/// How a database is reached.
#[derive(Debug, Clone, Copy, PartialEq, Eq, Structural)]
pub enum DriverKind {
    Embedded,
    Network,
    UnixSocket,
}

/// Where a database is.
#[derive(Debug, PartialEq, Eq)]
pub enum ConnectionTarget {
    EmbeddedPath(String),
    Network { host: String, port: u16 },
    UnixSocket { path: String },
}

/// The model of a target.
pub enum PlaceModel {
    EmbeddedPath(Seq<char>),
    Network { host: Seq<char>, port: u16 },
    UnixSocket { path: Seq<char> },
}

impl View for ConnectionTarget {
    type V = PlaceModel;

    open spec fn view(&self) -> PlaceModel {
        match self {
            ConnectionTarget::EmbeddedPath(path) => PlaceModel::EmbeddedPath(path@),
            ConnectionTarget::Network { host, port } => PlaceModel::Network {
                host: host@,
                port: *port,
            },
            ConnectionTarget::UnixSocket { path } => PlaceModel::UnixSocket { path: path@ },
        }
    }
}

/// How the database at a place is reached.
pub open spec fn driver_of(place: PlaceModel) -> DriverKind {
    match place {
        PlaceModel::EmbeddedPath(_) => DriverKind::Embedded,
        PlaceModel::Network { .. } => DriverKind::Network,
        PlaceModel::UnixSocket { .. } => DriverKind::UnixSocket,
    }
}

/// The path in a connection string: without leading slashes but one, where there is one.
pub open spec fn uri_path(path: Seq<char>) -> Seq<char> {
    if starts_with(path, "/"@) {
        "/"@ + without_leading(path, '/')
    } else {
        without_leading(path, '/')
    }
}

/// The database at a path.
pub open spec fn embedded_place(path: Seq<char>) -> Result<PlaceModel, Failure> {
    if uri_path(path).len() == 0 {
        Err(bad_input("Embedded Wardrobe connection URI requires a file-system path"@))
    } else {
        Ok(PlaceModel::EmbeddedPath(uri_path(path)))
    }
}

/// The database behind a Unix socket.
pub open spec fn unix_place(path: Seq<char>) -> Result<PlaceModel, Failure> {
    if uri_path(path).len() == 0 {
        Err(bad_input("Unix socket Wardrobe connection URI requires a socket path"@))
    } else {
        Ok(PlaceModel::UnixSocket { path: uri_path(path) })
    }
}

/// The number that the digits from position `i` on stand for, behind `value`.
pub open spec fn digits_value(s: Seq<char>, i: int, value: nat) -> Option<nat>
    decreases s.len() - i,
{
    if i < 0 || i >= s.len() {
        Some(value)
    } else if '0' <= s[i] <= '9' {
        digits_value(s, i + 1, (value * 10 + (s[i] as u32 - '0' as u32)) as nat)
    } else {
        None
    }
}

/// The number that a text stands for: digits, which a plus sign may stand before.
pub open spec fn number_value(s: Seq<char>) -> Option<nat> {
    let start = if s.len() > 0 && s[0] == '+' {
        1int
    } else {
        0int
    };
    if start >= s.len() {
        None
    } else {
        digits_value(s, start, 0)
    }
}

/// The port that a text stands for.
pub open spec fn port_value(s: Seq<char>) -> Option<u16> {
    match number_value(s) {
        Some(n) => if n <= u16::MAX {
            Some(n as u16)
        } else {
            None
        },
        None => None,
    }
}

/// The text of the error for a text that is no port.
pub uninterp spec fn port_problem(s: Seq<char>) -> Seq<char>;

/// `str::parse` reads a text as a number of 16 bits: digits, which a plus sign may stand before.
/// It reports an error for any other text and for a number that is too large; the text of the
/// error depends on the text alone.
#[verifier::external_body]
fn read_port(s: &str) -> (r: Result<u16, String>)
    ensures
        match r {
            Ok(port) => port_value(s@) == Some(port),
            Err(message) => port_value(s@) is None && message@ == port_problem(s@),
        },
{
    s.parse::<u16>().map_err(|error| error.to_string())
}

/// The database behind a host and a port.
pub open spec fn network_place(raw: Seq<char>) -> Result<PlaceModel, Failure> {
    let authority = without_around(raw, '/');
    if authority.len() == 0 {
        Err(bad_input("Network Wardrobe connection URI requires a host"@))
    } else if authority.contains('/') {
        Err(bad_input("Network Wardrobe connection URI should not contain a path"@))
    } else {
        match cut_last(authority, ':') {
            None => Ok(PlaceModel::Network { host: authority, port: DEFAULT_NETWORK_PORT }),
            Some((host, port)) => if host.len() == 0 {
                Err(
                    bad_input(
                        "Network Wardrobe connection URI requires a host before the port"@,
                    ),
                )
            } else {
                match port_value(port) {
                    Some(n) => Ok(PlaceModel::Network { host, port: n }),
                    None => Err(
                        bad_input(
                            "Invalid Wardrobe network port '"@ + port + "': "@ + port_problem(
                                port,
                            ),
                        ),
                    ),
                }
            },
        }
    }
}

/// Whether a text holds a scheme.
pub open spec fn has_scheme(s: Seq<char>) -> bool {
    exists|at: int| stands_at(s, "://"@, at)
}

/// Where the database of a connection string is, or why it is refused.
pub open spec fn place_named(connection_string: Seq<char>) -> Result<PlaceModel, Failure> {
    let s = trimmed(connection_string);
    if s.len() == 0 {
        Err(bad_input("Wardrobe connection string cannot be empty"@))
    } else if after_prefix(s, "wardrobe://local/"@) is Some {
        embedded_place(after_prefix(s, "wardrobe://local/"@)->0)
    } else if after_prefix(s, "wardrobe+file://"@) is Some {
        embedded_place(after_prefix(s, "wardrobe+file://"@)->0)
    } else if after_prefix(s, "file://"@) is Some {
        embedded_place(after_prefix(s, "file://"@)->0)
    } else if after_prefix(s, "wardrobe+unix://"@) is Some {
        unix_place(after_prefix(s, "wardrobe+unix://"@)->0)
    } else if after_prefix(s, "wardrobe://unix/"@) is Some {
        unix_place(after_prefix(s, "wardrobe://unix/"@)->0)
    } else if after_prefix(s, "wardrobe://"@) is Some {
        network_place(after_prefix(s, "wardrobe://"@)->0)
    } else if has_scheme(s) {
        Err(bad_input("Unsupported Wardrobe connection scheme: "@ + s))
    } else {
        Ok(PlaceModel::EmbeddedPath(s))
    }
}

/// Whether a result is the place, or the failure.
pub open spec fn is_place(r: Result<ConnectionTarget, Error>, wanted: Result<PlaceModel, Failure>) -> bool {
    match (wanted, r) {
        (Ok(place), Ok(target)) => target@ == place,
        (Err(f), Err(e)) => e@ == f,
        _ => false,
    }
}

impl ConnectionTarget {
    pub fn driver_kind(&self) -> (r: DriverKind)
        ensures
            r == driver_of(self@),
    {
        match self {
            ConnectionTarget::EmbeddedPath(_) => DriverKind::Embedded,
            ConnectionTarget::Network { .. } => DriverKind::Network,
            ConnectionTarget::UnixSocket { .. } => DriverKind::UnixSocket,
        }
    }

    /// Whether the database is opened in this process.
    pub fn requires_embedded_engine(&self) -> (r: bool)
        ensures
            r == (driver_of(self@) == DriverKind::Embedded),
    {
        match self {
            ConnectionTarget::EmbeddedPath(_) => true,
            _ => false,
        }
    }

    /// Whether the database is reached through a socket.
    pub fn uses_socket_transport(&self) -> (r: bool)
        ensures
            r == (driver_of(self@) != DriverKind::Embedded),
    {
        !self.requires_embedded_engine()
    }

    pub fn parse(connection_string: &str) -> (r: Result<Self, Error>)
        ensures
            is_place(r, place_named(connection_string@)),
    {
        let bare = trim(connection_string);
        let s = bare.as_str();
        if s.is_empty() {
            return Err(
                Error::invalid_input(owned("Wardrobe connection string cannot be empty")),
            );
        }
        match strip_prefix(s, "wardrobe://local/") {
            Some(rest) => {
                return ConnectionTarget::embedded_from_uri_path(rest.as_str());
            },
            None => {},
        }
        match strip_prefix(s, "wardrobe+file://") {
            Some(rest) => {
                return ConnectionTarget::embedded_from_uri_path(rest.as_str());
            },
            None => {},
        }
        match strip_prefix(s, "file://") {
            Some(rest) => {
                return ConnectionTarget::embedded_from_uri_path(rest.as_str());
            },
            None => {},
        }
        match strip_prefix(s, "wardrobe+unix://") {
            Some(rest) => {
                return ConnectionTarget::unix_from_uri_path(rest.as_str());
            },
            None => {},
        }
        match strip_prefix(s, "wardrobe://unix/") {
            Some(rest) => {
                return ConnectionTarget::unix_from_uri_path(rest.as_str());
            },
            None => {},
        }
        match strip_prefix(s, "wardrobe://") {
            Some(rest) => {
                return ConnectionTarget::network_from_authority(rest.as_str());
            },
            None => {},
        }
        if has_part(s, "://") {
            return Err(
                Error::invalid_input(concat2("Unsupported Wardrobe connection scheme: ", s)),
            );
        }
        Ok(ConnectionTarget::EmbeddedPath(owned(s)))
    }

    pub fn embedded_from_uri_path(path: &str) -> (r: Result<Self, Error>)
        ensures
            is_place(r, embedded_place(path@)),
    {
        let path = ConnectionTarget::normalize_uri_path(path);
        if path.as_str().is_empty() {
            return Err(
                Error::invalid_input(
                    owned("Embedded Wardrobe connection URI requires a file-system path"),
                ),
            );
        }
        Ok(ConnectionTarget::EmbeddedPath(path))
    }

    pub fn unix_from_uri_path(path: &str) -> (r: Result<Self, Error>)
        ensures
            is_place(r, unix_place(path@)),
    {
        let path = ConnectionTarget::normalize_uri_path(path);
        if path.as_str().is_empty() {
            return Err(
                Error::invalid_input(
                    owned("Unix socket Wardrobe connection URI requires a socket path"),
                ),
            );
        }
        Ok(ConnectionTarget::UnixSocket { path })
    }

    pub fn network_from_authority(authority: &str) -> (r: Result<Self, Error>)
        ensures
            is_place(r, network_place(authority@)),
    {
        let bare = trim_char(authority, '/');
        let authority = bare.as_str();
        if authority.is_empty() {
            return Err(
                Error::invalid_input(owned("Network Wardrobe connection URI requires a host")),
            );
        }
        if has_char(authority, '/') {
            return Err(
                Error::invalid_input(
                    owned("Network Wardrobe connection URI should not contain a path"),
                ),
            );
        }
        match rsplit_once(authority, ':') {
            Some((host, port)) => {
                if host.as_str().is_empty() {
                    return Err(
                        Error::invalid_input(
                            owned(
                                "Network Wardrobe connection URI requires a host before the port",
                            ),
                        ),
                    );
                }
                match read_port(port.as_str()) {
                    Ok(n) => Ok(ConnectionTarget::Network { host, port: n }),
                    Err(message) => Err(
                        Error::invalid_input(
                            crate::text::concat4(
                                "Invalid Wardrobe network port '",
                                port.as_str(),
                                "': ",
                                message.as_str(),
                            ),
                        ),
                    ),
                }
            },
            None => Ok(
                ConnectionTarget::Network {
                    host: owned(authority),
                    port: DEFAULT_NETWORK_PORT,
                },
            ),
        }
    }

    pub fn normalize_uri_path(path: &str) -> (r: String)
        ensures
            r@ == uri_path(path@),
    {
        let normalized = trim_start_char(path, '/');
        if has_prefix(path, "/") {
            concat2("/", normalized.as_str())
        } else {
            normalized
        }
    }
}

/// A text that starts with `prefix` holds what stands in `prefix`.
proof fn lemma_prefix_part(s: Seq<char>, prefix: Seq<char>, part: Seq<char>, at: int)
    requires
        starts_with(s, prefix),
        0 <= at <= prefix.len() - part.len(),
        prefix.subrange(at, at + part.len()) =~= part,
    ensures
        stands_at(s, part, at),
{
    assert forall|k: int| 0 <= k < part.len() implies s[at + k] == part[k] by {
        assert(s[at + k] == prefix[at + k]);
        assert(prefix.subrange(at, at + part.len())[k] == prefix[at + k]);
    }
    assert(s.subrange(at, at + part.len()) =~= part);
}

/// A connection string without a scheme, that is not blank, names the database in the directory
/// that it names itself, less the white space around it.
pub proof fn law_plain_path_is_embedded(connection_string: Seq<char>)
    requires
        trimmed(connection_string).len() > 0,
        !has_scheme(trimmed(connection_string)),
    ensures
        place_named(connection_string) == Ok::<PlaceModel, Failure>(
            PlaceModel::EmbeddedPath(trimmed(connection_string)),
        ),
{
    let s = trimmed(connection_string);
    reveal_strlit("://");
    reveal_strlit("wardrobe://local/");
    reveal_strlit("wardrobe+file://");
    reveal_strlit("file://");
    reveal_strlit("wardrobe+unix://");
    reveal_strlit("wardrobe://unix/");
    reveal_strlit("wardrobe://");
    if starts_with(s, "wardrobe://local/"@) {
        lemma_prefix_part(s, "wardrobe://local/"@, "://"@, 8);
    }
    if starts_with(s, "wardrobe+file://"@) {
        lemma_prefix_part(s, "wardrobe+file://"@, "://"@, 13);
    }
    if starts_with(s, "file://"@) {
        lemma_prefix_part(s, "file://"@, "://"@, 4);
    }
    if starts_with(s, "wardrobe+unix://"@) {
        lemma_prefix_part(s, "wardrobe+unix://"@, "://"@, 13);
    }
    if starts_with(s, "wardrobe://unix/"@) {
        lemma_prefix_part(s, "wardrobe://unix/"@, "://"@, 8);
    }
    if starts_with(s, "wardrobe://"@) {
        lemma_prefix_part(s, "wardrobe://"@, "://"@, 8);
    }
}

/// A host that is named without a port is reached at the default port.
pub proof fn law_default_port(host: Seq<char>)
    requires
        host.len() > 0,
        !host.contains('/'),
        !host.contains(':'),
        !is_space(host.last()),
    ensures
        place_named("wardrobe://"@ + host) == Ok::<PlaceModel, Failure>(
            PlaceModel::Network { host, port: DEFAULT_NETWORK_PORT },
        ),
{
    let s = "wardrobe://"@ + host;
    reveal_strlit("wardrobe://local/");
    reveal_strlit("wardrobe+file://");
    reveal_strlit("file://");
    reveal_strlit("wardrobe+unix://");
    reveal_strlit("wardrobe://unix/");
    reveal_strlit("wardrobe://");
    crate::text::laws::lemma_solid_stays(s);
    assert(s[0] == 'w');
    assert(s[8] == ':');
    assert forall|k: int| 11 <= k < s.len() implies s[k] != '/' by {
        assert(s[k] == host[k - 11]);
        assert(host.contains(host[k - 11]));
    }
    if starts_with(s, "wardrobe://local/"@) {
        assert(s[16] == "wardrobe://local/"@[16]);
    }
    if starts_with(s, "wardrobe+file://"@) {
        assert(s[8] == "wardrobe+file://"@[8]);
    }
    if starts_with(s, "file://"@) {
        assert(s[0] == "file://"@[0]);
    }
    if starts_with(s, "wardrobe+unix://"@) {
        assert(s[8] == "wardrobe+unix://"@[8]);
    }
    if starts_with(s, "wardrobe://unix/"@) {
        assert(s[15] == "wardrobe://unix/"@[15]);
    }
    assert(s.subrange(0, 11) =~= "wardrobe://"@);
    assert(s.subrange(11, s.len() as int) =~= host);
    assert(host.contains(host[0]) && host.contains(host.last()));
    assert(without_around(host, '/') =~= host);
    crate::text::lemma_last_index(host, ':', host.len() as int);
    assert(cut_last(host, ':') is None) by {
        let j = crate::text::last_index(host, ':', host.len() as int);
        if j >= 0 {
            assert(host.contains(host[j]));
        }
    }
}

/// The white space at the end of a text behind a prefix goes as it goes from the text.
proof fn lemma_trimmed_behind(prefix: Seq<char>, rest: Seq<char>)
    requires
        prefix.len() > 0,
        !is_space(prefix[0]),
        !is_space(prefix.last()),
    ensures
        trimmed(prefix + rest) == prefix + rest.take(solid_end(rest, 0, rest.len() as int)),
{
    let s = prefix + rest;
    assert(s[0] == prefix[0]);
    assert(first_solid(s, 0) == 0);
    lemma_solid_end_behind(prefix, rest, rest.len() as int);
    crate::text::laws::lemma_solid_end(rest, 0, rest.len() as int);
    assert(trimmed(s) =~= prefix + rest.take(solid_end(rest, 0, rest.len() as int)));
}

proof fn lemma_solid_end_behind(prefix: Seq<char>, rest: Seq<char>, end: int)
    requires
        prefix.len() > 0,
        !is_space(prefix.last()),
        0 <= end <= rest.len(),
    ensures
        solid_end(prefix + rest, 0, prefix.len() + end) == prefix.len() + solid_end(rest, 0, end),
    decreases end,
{
    let s = prefix + rest;
    if end == 0 {
        assert(s[prefix.len() - 1] == prefix.last());
    } else {
        assert(s[prefix.len() + end - 1] == rest[end - 1]);
        if is_space(rest[end - 1]) {
            lemma_solid_end_behind(prefix, rest, end - 1);
        }
    }
}

/// What follows a prefix of a connection string, less the white space at its end.
proof fn lemma_after_prefix(prefix: Seq<char>, rest: Seq<char>)
    requires
        prefix.len() > 0,
        !is_space(prefix[0]),
        !is_space(prefix.last()),
    ensures
        trimmed(prefix + rest).len() >= prefix.len(),
        trimmed(prefix + rest).take(prefix.len() as int) == prefix,
        after_prefix(trimmed(prefix + rest), prefix) == Some(
            rest.take(solid_end(rest, 0, rest.len() as int)),
        ),
{
    lemma_trimmed_behind(prefix, rest);
    crate::text::laws::lemma_solid_end(rest, 0, rest.len() as int);
    let left = rest.take(solid_end(rest, 0, rest.len() as int));
    let s = prefix + left;
    assert(s.subrange(0, prefix.len() as int) =~= prefix);
    assert(s.subrange(prefix.len() as int, s.len() as int) =~= left);
}

/// The three spellings of the path of an embedded database name the same place, or are refused
/// alike.
pub proof fn law_embedded_spellings_agree(path: Seq<char>)
    ensures
        place_named("wardrobe://local/"@ + path) == place_named("file://"@ + path),
        place_named("wardrobe+file://"@ + path) == place_named("file://"@ + path),
{
    reveal_strlit("wardrobe://local/");
    reveal_strlit("wardrobe+file://");
    reveal_strlit("file://");
    lemma_after_prefix("wardrobe://local/"@, path);
    lemma_after_prefix("wardrobe+file://"@, path);
    lemma_after_prefix("file://"@, path);
    let plus = trimmed("wardrobe+file://"@ + path);
    let file = trimmed("file://"@ + path);
    assert(plus[8] == plus.take(16)[8]);
    assert(file[0] == file.take(7)[0]);
    if starts_with(plus, "wardrobe://local/"@) {
        assert(plus[8] == "wardrobe://local/"@[8]);
    }
    if starts_with(file, "wardrobe://local/"@) {
        assert(file[0] == "wardrobe://local/"@[0]);
    }
    if starts_with(file, "wardrobe+file://"@) {
        assert(file[0] == "wardrobe+file://"@[0]);
    }
}

/// A relative path behind `file://` is the directory of the database.
pub proof fn law_file_path_is_embedded(path: Seq<char>)
    requires
        path.len() > 0,
        path[0] != '/',
        !is_space(path.last()),
    ensures
        place_named("file://"@ + path) == Ok::<PlaceModel, Failure>(PlaceModel::EmbeddedPath(path)),
{
    reveal_strlit("wardrobe://local/");
    reveal_strlit("wardrobe+file://");
    reveal_strlit("file://");
    reveal_strlit("/");
    lemma_after_prefix("file://"@, path);
    assert(path.take(solid_end(path, 0, path.len() as int)) =~= path);
    let file = trimmed("file://"@ + path);
    assert(file[0] == file.take(7)[0]);
    if starts_with(file, "wardrobe://local/"@) {
        assert(file[0] == "wardrobe://local/"@[0]);
    }
    if starts_with(file, "wardrobe+file://"@) {
        assert(file[0] == "wardrobe+file://"@[0]);
    }
    if starts_with(path, "/"@) {
        assert(path[0] == "/"@[0]);
    }
    assert(without_leading(path, '/') =~= path);
}

/// The two spellings of the path of a socket name the same place, or are refused alike.
pub proof fn law_socket_spellings_agree(path: Seq<char>)
    ensures
        place_named("wardrobe+unix://"@ + path) == place_named("wardrobe://unix/"@ + path),
{
    reveal_strlit("wardrobe://local/");
    reveal_strlit("wardrobe+file://");
    reveal_strlit("file://");
    reveal_strlit("wardrobe+unix://");
    reveal_strlit("wardrobe://unix/");
    lemma_after_prefix("wardrobe+unix://"@, path);
    lemma_after_prefix("wardrobe://unix/"@, path);
    let plus = trimmed("wardrobe+unix://"@ + path);
    let slash = trimmed("wardrobe://unix/"@ + path);
    assert(plus[0] == plus.take(16)[0] && plus[8] == plus.take(16)[8] && plus[9] == plus.take(
        16,
    )[9]);
    assert(slash[0] == slash.take(16)[0] && slash[8] == slash.take(16)[8] && slash[11]
        == slash.take(16)[11]);
    if starts_with(plus, "wardrobe://local/"@) {
        assert(plus[8] == "wardrobe://local/"@[8]);
    }
    if starts_with(plus, "wardrobe+file://"@) {
        assert(plus[9] == "wardrobe+file://"@[9]);
    }
    if starts_with(plus, "file://"@) {
        assert(plus[0] == "file://"@[0]);
    }
    if starts_with(slash, "wardrobe://local/"@) {
        assert(slash[11] == "wardrobe://local/"@[11]);
    }
    if starts_with(slash, "wardrobe+file://"@) {
        assert(slash[8] == "wardrobe+file://"@[8]);
    }
    if starts_with(slash, "file://"@) {
        assert(slash[0] == "file://"@[0]);
    }
    if starts_with(slash, "wardrobe+unix://"@) {
        assert(slash[8] == "wardrobe+unix://"@[8]);
    }
}

/// White space around a connection string does not count, and whatever is refused is refused as
/// bad input.
pub proof fn law_connection_strings_are_trimmed(connection_string: Seq<char>)
    ensures
        place_named(connection_string) == place_named(trimmed(connection_string)),
        place_named(connection_string) matches Err(f) ==> f.kind == ErrorKind::InvalidInput,
{
    crate::text::laws::law_trim_twice(connection_string);
}

} // verus!
