//! Which place a connection string names.
use crate::connection::{
    digits_value, driver_of, network_place, number_value, place_named, port_value, uri_path,
    PlaceModel,
};
use crate::error::{ErrorKind, Failure};
use crate::text::{
    cut_last, decimal, first_other, is_space, last_index, lemma_first_other, lemma_last_index,
    stands_at, starts_with, trimmed, without_around, without_leading,
};
use vstd::prelude::*;

verus! {

/// A path is opened here, a host is reached over the network, and a socket through the socket.
pub proof fn law_driver_suits_the_place(place: PlaceModel)
    ensures
        driver_of(place) is Embedded <==> place is EmbeddedPath,
        driver_of(place) is Network <==> place is Network,
        driver_of(place) is UnixSocket <==> place is UnixSocket,
{
}

/// A host and a port, with a colon between them, name the database at that port of that host; a
/// text that is no port is refused.
pub proof fn law_host_and_port_are_named(host: Seq<char>, port: Seq<char>)
    requires
        host.len() > 0,
        !host.contains('/'),
        port.len() > 0,
        !port.contains('/'),
        !port.contains(':'),
        !is_space(port.last()),
    ensures
        match place_named("wardrobe://"@ + host + ":"@ + port) {
            Ok(place) => port_value(port) matches Some(n) && place == (PlaceModel::Network {
                host,
                port: n,
            }),
            Err(f) => port_value(port) is None && f.kind == ErrorKind::InvalidInput,
        },
{
    reveal_strlit("wardrobe://local/");
    reveal_strlit("wardrobe+file://");
    reveal_strlit("file://");
    reveal_strlit("wardrobe+unix://");
    reveal_strlit("wardrobe://unix/");
    reveal_strlit("wardrobe://");
    reveal_strlit(":");
    let rest = host + ":"@ + port;
    let s = "wardrobe://"@ + host + ":"@ + port;
    assert(s =~= "wardrobe://"@ + rest);
    assert(s.last() == port.last());
    assert(s[0] == 'w');
    assert(s[8] == ':');
    crate::text::laws::lemma_solid_stays(s);
    assert forall|k: int| 0 <= k < rest.len() implies rest[k] != '/' by {
        if k < host.len() {
            assert(rest[k] == host[k]);
            assert(host.contains(host[k]));
        } else if k > host.len() {
            assert(rest[k] == port[k - host.len() - 1]);
            assert(port.contains(port[k - host.len() - 1]));
        }
    }
    assert forall|k: int| 11 <= k < s.len() implies s[k] != '/' by {
        assert(s[k] == rest[k - 11]);
    }
    if starts_with(s, "wardrobe://local/"@) {
        assert(s[16] == "wardrobe://local/"@[16]);
    }
    if starts_with(s, "wardrobe+file://"@) {
        assert(s[8] == "wardrobe+file://"@[8]);
    }
    if starts_with(s, "file://"@) {
        assert(s[0] == "file://"@[0]);
    }
    if starts_with(s, "wardrobe+unix://"@) {
        assert(s[8] == "wardrobe+unix://"@[8]);
    }
    if starts_with(s, "wardrobe://unix/"@) {
        assert(s[15] == "wardrobe://unix/"@[15]);
    }
    assert(s.subrange(0, 11) =~= "wardrobe://"@);
    assert(s.subrange(11, s.len() as int) =~= rest);
    assert(rest[0] != '/' && rest.last() != '/');
    assert(without_around(rest, '/') =~= rest);
    assert(!rest.contains('/'));
    lemma_last_index(rest, ':', rest.len() as int);
    let j = last_index(rest, ':', rest.len() as int);
    assert(rest[host.len() as int] == ':');
    if j > host.len() {
        assert(rest[j] == port[j - host.len() - 1]);
        assert(port.contains(port[j - host.len() - 1]));
    }
    assert(j == host.len());
    assert(rest.subrange(0, j) =~= host);
    assert(rest.subrange(j + 1, rest.len() as int) =~= port);
    assert(cut_last(rest, ':') == Some((host, port)));
}

proof fn lemma_digits_behind(s: Seq<char>, c: char, i: int, value: nat)
    requires
        0 <= i <= s.len(),
        '0' <= c <= '9',
    ensures
        digits_value(s.push(c), i, value) == match digits_value(s, i, value) {
            Some(n) => Some((n * 10 + (c as u32 - '0' as u32)) as nat),
            None => None,
        },
    decreases s.len() - i,
{
    let t = s.push(c);
    if i < s.len() {
        assert(t[i] == s[i]);
        if '0' <= s[i] <= '9' {
            lemma_digits_behind(s, c, i + 1, (value * 10 + (s[i] as u32 - '0' as u32)) as nat);
        }
    } else {
        assert(t[i] == c);
        assert(digits_value(t, i + 1, (value * 10 + (c as u32 - '0' as u32)) as nat) == Some(
            (value * 10 + (c as u32 - '0' as u32)) as nat,
        ));
    }
}

proof fn lemma_decimal_is_read(n: nat)
    ensures
        decimal(n).len() > 0,
        '0' <= decimal(n)[0] <= '9',
        digits_value(decimal(n), 0, 0) == Some(n),
    decreases n,
{
    let s = decimal(n);
    if n < 10 {
        assert(digits_value(s, 1, n) == Some(n));
    } else {
        lemma_decimal_is_read(n / 10);
        let c = crate::text::digit(n % 10);
        assert(s =~= decimal(n / 10).push(c));
        lemma_digits_behind(decimal(n / 10), c, 0, 0);
        assert(s[0] == decimal(n / 10)[0]);
    }
}

/// A port is read from its digits.
pub proof fn law_port_is_read_from_its_digits(n: u16)
    ensures
        port_value(decimal(n as nat)) == Some(n),
{
    lemma_decimal_is_read(n as nat);
    assert(number_value(decimal(n as nat)) == Some(n as nat));
}

/// A connection string without a host, or with a path behind it, or without anything, is refused.
pub proof fn law_bad_places_are_refused(raw: Seq<char>, connection_string: Seq<char>)
    ensures
        without_around(raw, '/').contains('/') || without_around(raw, '/').len() == 0 ==> (
        network_place(raw) matches Err(f) && f.kind == ErrorKind::InvalidInput),
        trimmed(connection_string).len() == 0 ==> (place_named(connection_string) matches Err(f)
            && f.kind == ErrorKind::InvalidInput),
        network_place(raw) matches Ok(place) ==> place is Network,
{
}

/// A path in a connection string has at most one slash at its start, and none that did not start
/// with one gets one; what stands behind the slashes stays.
pub proof fn law_leading_slashes_are_one(path: Seq<char>)
    ensures
        uri_path(path).len() > 1 ==> !(uri_path(path)[0] == '/' && uri_path(path)[1] == '/'),
        path.len() > 0 ==> ((uri_path(path).len() > 0 && uri_path(path)[0] == '/') <==> path[0]
            == '/'),
        without_leading(uri_path(path), '/') == without_leading(path, '/'),
        path.len() > 0 && path[0] == '/' && (path.len() == 1 || path[1] != '/') ==> uri_path(path)
            == path,
        path.len() > 0 && path[0] != '/' ==> uri_path(path) == path,
{
    reveal_strlit("/");
    lemma_first_other(path, '/', 0);
    let rest = without_leading(path, '/');
    let shown = uri_path(path);
    lemma_first_other(shown, '/', 0);
    if path.len() > 0 && path[0] == '/' {
        assert(path.subrange(0, 1) =~= "/"@);
        assert(shown == "/"@ + rest);
        if rest.len() > 0 {
            assert(shown[1] == rest[0]);
        }
        assert(first_other(shown, '/', 0) == 1) by {
            assert(first_other(shown, '/', 0) == first_other(shown, '/', 1));
        }
        assert(shown.subrange(1, shown.len() as int) =~= rest);
        if path.len() == 1 || path[1] != '/' {
            assert(first_other(path, '/', 0) == first_other(path, '/', 1));
            assert(shown =~= path);
        }
    } else {
        if starts_with(path, "/"@) {
            assert(path.subrange(0, 1)[0] == path[0]);
        }
        assert(shown =~= path);
        assert(rest =~= path);
    }
}

/// A socket is named by its path, and a directory by its own.
pub proof fn law_sockets_and_directories_are_named_by_their_path(path: Seq<char>)
    requires
        path.len() > 1,
        path[0] == '/',
        path[1] != '/',
        !is_space(path.last()),
    ensures
        place_named("wardrobe+unix://"@ + path) == Ok::<PlaceModel, Failure>(
            PlaceModel::UnixSocket { path },
        ),
        place_named("file://"@ + path) == Ok::<PlaceModel, Failure>(PlaceModel::EmbeddedPath(path)),
{
    reveal_strlit("wardrobe://local/");
    reveal_strlit("wardrobe+file://");
    reveal_strlit("file://");
    reveal_strlit("wardrobe+unix://");
    law_leading_slashes_are_one(path);
    let s = "wardrobe+unix://"@ + path;
    assert(s.last() == path.last() && s[0] == 'w' && s[8] == '+' && s[9] == 'u');
    crate::text::laws::lemma_solid_stays(s);
    if starts_with(s, "wardrobe://local/"@) {
        assert(s[8] == "wardrobe://local/"@[8]);
    }
    if starts_with(s, "wardrobe+file://"@) {
        assert(s[9] == "wardrobe+file://"@[9]);
    }
    if starts_with(s, "file://"@) {
        assert(s[0] == "file://"@[0]);
    }
    assert(s.subrange(0, 16) =~= "wardrobe+unix://"@);
    assert(s.subrange(16, s.len() as int) =~= path);
    let t = "file://"@ + path;
    assert(t.last() == path.last() && t[0] == 'f');
    crate::text::laws::lemma_solid_stays(t);
    if starts_with(t, "wardrobe://local/"@) {
        assert(t[0] == "wardrobe://local/"@[0]);
    }
    if starts_with(t, "wardrobe+file://"@) {
        assert(t[0] == "wardrobe+file://"@[0]);
    }
    assert(t.subrange(0, 7) =~= "file://"@);
    assert(t.subrange(7, t.len() as int) =~= path);
}

/// A connection string with a scheme that is not known is refused.
pub proof fn law_unknown_schemes_are_refused(connection_string: Seq<char>, at: int)
    requires
        stands_at(trimmed(connection_string), "://"@, at),
        !starts_with(trimmed(connection_string), "wardrobe://"@),
        !starts_with(trimmed(connection_string), "wardrobe+file://"@),
        !starts_with(trimmed(connection_string), "wardrobe+unix://"@),
        !starts_with(trimmed(connection_string), "file://"@),
    ensures
        place_named(connection_string) matches Err(f) && f.kind == ErrorKind::InvalidInput,
{
    reveal_strlit("wardrobe://local/");
    reveal_strlit("wardrobe://unix/");
    reveal_strlit("wardrobe://");
    let s = trimmed(connection_string);
    assert(crate::connection::has_scheme(s));
    if starts_with(s, "wardrobe://local/"@) {
        assert(s.subrange(0, 11) =~= "wardrobe://"@) by {
            assert forall|k: int| 0 <= k < 11 implies s.subrange(0, 11)[k] == "wardrobe://"@[k] by {
                assert(s.subrange(0, 17)[k] == "wardrobe://local/"@[k]);
            }
        }
    }
    if starts_with(s, "wardrobe://unix/"@) {
        assert(s.subrange(0, 11) =~= "wardrobe://"@) by {
            assert forall|k: int| 0 <= k < 11 implies s.subrange(0, 11)[k] == "wardrobe://"@[k] by {
                assert(s.subrange(0, 16)[k] == "wardrobe://unix/"@[k]);
            }
        }
    }
}

} // verus!
