//! Which host a remote names.

use vstd::prelude::*;
use vstd::string::*;

use crate::forge::{host_in, is_github};
use crate::seqs::{index_of, lemma_index_is, lemma_index_of, split_on};
use crate::text::{ascii_lower, first_at, has_text, lemma_first_at, occurs_at};

verus! {

/// Whether a text can stand for a host: there is no mark in it that ends one.
pub open spec fn is_host(s: Seq<char>) -> bool {
    !s.contains('/') && !s.contains('@') && !s.contains(':')
}

proof fn lemma_first_piece(head: Seq<char>, c: char, rest: Seq<char>)
    requires
        !head.contains(c),
    ensures
        split_on(head.push(c) + rest, c)[0] == head,
        split_on(head, c) == seq![head],
        split_on(head.push(c) + rest, c) == seq![head] + split_on(rest, c),
{
    let s = head.push(c) + rest;
    assert forall|j: int| 0 <= j < head.len() implies s[j] != c by {
        assert(s[j] == head[j]);
        assert(head.contains(head[j]));
    }
    lemma_index_is(s, c, head.len() as int);
    assert(s.take(head.len() as int) =~= head);
    assert(s.skip(head.len() as int + 1) =~= rest);
    assert forall|j: int| 0 <= j < head.len() implies head[j] != c by {
        assert(head.contains(head[j]));
    }
    lemma_index_is(head, c, head.len() as int);
    assert(split_on(head, c) =~= seq![head]);
}

/// The host behind the user, if there is one, and before the port or the path.
proof fn lemma_authority(user: Option<Seq<char>>, host: Seq<char>, port: Option<Seq<char>>)
    requires
        is_host(host),
        user matches Some(u) ==> !u.contains('@') && !u.contains('/'),
        port matches Some(p) ==> !p.contains('@') && !p.contains('/'),
    ensures
        split_on(split_on(authority(user, host, port), '@').last(), ':')[0] == host,
        !authority(user, host, port).contains('/'),
{
    let tail = match port {
        Some(p) => host.push(':') + p,
        None => host,
    };
    assert(!tail.contains('@') && !tail.contains('/')) by {
        if let Some(p) = port {
            assert forall|c: char| tail.contains(c) implies host.contains(c) || c == ':' || p.contains(
                c,
            ) by {
                let k = tail.index_of(c);
                if k < host.len() {
                    assert(host[k] == c);
                } else if k > host.len() {
                    assert(p[k - host.len() - 1] == c);
                }
            }
        }
    }
    let whole = authority(user, host, port);
    match user {
        Some(u) => {
            lemma_first_piece(u, '@', tail);
            lemma_first_piece(tail, '@', Seq::empty());
            assert(whole =~= u.push('@') + tail);
            assert(split_on(whole, '@') =~= seq![u, tail]);
            assert forall|c: char| whole.contains(c) implies u.contains(c) || c == '@'
                || tail.contains(c) by {
                let k = whole.index_of(c);
                if k < u.len() {
                    assert(u[k] == c);
                } else if k > u.len() {
                    assert(tail[k - u.len() - 1] == c);
                }
            }
        },
        None => {
            lemma_first_piece(tail, '@', Seq::empty());
        },
    }
    match port {
        Some(p) => {
            lemma_first_piece(host, ':', p);
        },
        None => {
            lemma_first_piece(host, ':', Seq::empty());
        },
    }
}

/// A host with the user before it and the port behind it.
pub open spec fn authority(
    user: Option<Seq<char>>,
    host: Seq<char>,
    port: Option<Seq<char>>,
) -> Seq<char> {
    (match user {
        Some(u) => u.push('@'),
        None => Seq::empty(),
    }) + (match port {
        Some(p) => host.push(':') + p,
        None => host,
    })
}

/// A URL names the host behind its scheme: whatever user comes before the host,
/// whatever port behind it, and whatever stands in the path.
pub proof fn a_url_names_its_host(
    scheme: Seq<char>,
    user: Option<Seq<char>>,
    host: Seq<char>,
    port: Option<Seq<char>>,
    path: Seq<char>,
)
    requires
        !scheme.contains(':'),
        is_host(host),
        user matches Some(u) ==> !u.contains('@') && !u.contains('/'),
        port matches Some(p) ==> !p.contains('@') && !p.contains('/'),
    ensures
        host_in(scheme + "://"@ + authority(user, host, port) + seq!['/'] + path) == host,
{
    reveal_strlit("://");
    let mark = "://"@;
    let rest = authority(user, host, port) + seq!['/'] + path;
    let url = scheme + mark + authority(user, host, port) + seq!['/'] + path;
    let n = scheme.len() as int;
    assert(url.subrange(n, n + 3) =~= mark);
    assert(occurs_at(url, mark, n));
    assert forall|j: int| 0 <= j < n implies !occurs_at(url, mark, j) by {
        if occurs_at(url, mark, j) {
            assert(url.subrange(j, j + 3)[0] == url[j]);
            assert(url[j] == scheme[j]);
            assert(scheme.contains(scheme[j]));
        }
    }
    lemma_first_at(url, mark, 0);
    assert(first_at(url, mark, 0) == Some(n));
    assert(url.skip(n + 3) =~= rest);
    lemma_authority(user, host, port);
    lemma_first_piece(authority(user, host, port), '/', path);
    assert(rest =~= authority(user, host, port).push('/') + path);
}

/// A remote in the short form names the host before the colon, behind the user.
pub proof fn a_short_remote_names_its_host(user: Option<Seq<char>>, host: Seq<char>, path: Seq<char>)
    requires
        is_host(host),
        user matches Some(u) ==> !u.contains('@') && !u.contains('/'),
        !has_text(authority(user, host, None).push(':') + path, "://"@),
        !path.contains('@'),
    ensures
        host_in(authority(user, host, None).push(':') + path) == host,
{
    let url = authority(user, host, None).push(':') + path;
    lemma_first_at(url, "://"@, 0);
    assert(first_at(url, "://"@, 0) is None);
    // What stands before the first slash is a host with something behind a colon.
    lemma_index_of(path, '/');
    let k = index_of(path, '/') as int;
    let port = path.take(k);
    assert(!port.contains('/')) by {
        if port.contains('/') {
            let m = port.index_of('/');
            assert(path[m] == '/');
        }
    }
    assert(!port.contains('@')) by {
        if port.contains('@') {
            let m = port.index_of('@');
            assert(path[m] == '@');
        }
    }
    lemma_authority(user, host, Some(port));
    let front = authority(user, host, Some(port));
    assert(front =~= authority(user, host, None).push(':') + port);
    if k < path.len() {
        lemma_first_piece(front, '/', path.skip(k + 1));
        assert(url =~= front.push('/') + path.skip(k + 1));
    } else {
        lemma_first_piece(front, '/', Seq::empty());
        assert(port =~= path);
        assert(url =~= front);
    }
}

/// A remote is on GitHub where its host is, in capitals or not, and nowhere else.
pub proof fn github_is_one_host(url: Seq<char>)
    ensures
        is_github(url) <==> host_in(url).map_values(|c: char| ascii_lower(c)) == "github.com"@,
{
}

} // verus!
