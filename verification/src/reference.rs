//! Image references: `host/path/name:tag` and `host/path/name@digest`.

use vstd::prelude::*;

use crate::text::{chars_of, find_first, find_last, same_text};

verus! {

/// The part of a reference before its first `/`.
pub open spec fn first_segment(s: Seq<char>) -> Seq<char> {
    match s.index_of_first('/') {
        Some(i) => s.take(i),
        None => s,
    }
}

/// Whether the first segment of a reference names a registry host.
pub open spec fn names_host(segment: Seq<char>) -> bool {
    segment.contains('.') || segment.contains(':') || segment == "localhost"@
}

/// The registry host of a reference, where it names one.
pub open spec fn image_host(s: Seq<char>) -> Option<Seq<char>> {
    if names_host(first_segment(s)) {
        Some(first_segment(s))
    } else {
        None
    }
}

/// The registry host that `image_ref` names; an unqualified reference names none.
pub fn extract_image_host(image_ref: &str) -> (r: Option<&str>)
    ensures
        match r {
            Some(h) => image_host(image_ref@) == Some(h@),
            None => image_host(image_ref@) is None,
        },
{
    let chars = chars_of(image_ref);
    proof {
        image_ref@.index_of_first_ensures('/');
    }
    let end: usize = match find_first(&chars, '/') {
        Some(i) => i,
        None => chars.len(),
    };
    let first = image_ref.substring_char(0, end);
    assert(first@ =~= first_segment(image_ref@));
    let segment = chars_of(first);
    proof {
        first@.index_of_first_ensures('.');
        first@.index_of_first_ensures(':');
    }
    let has_dot = find_first(&segment, '.').is_some();
    let has_colon = find_first(&segment, ':').is_some();
    if has_dot || has_colon || same_text(first, "localhost") {
        Some(first)
    } else {
        None
    }
}

/// Whether `image_ref` names the registry host `host`.
pub fn image_matches_host(image_ref: &str, host: &str) -> (r: bool)
    ensures
        r == (image_host(image_ref@) == Some(host@)),
{
    match extract_image_host(image_ref) {
        Some(h) => same_text(h, host),
        None => false,
    }
}

/// The digest of a reference with its `@`, or else its tag with the `:`, and whether it is a
/// digest. A `:` starts a tag only behind the last `/`.
pub open spec fn tag_or_digest(s: Seq<char>) -> (Option<Seq<char>>, bool) {
    match s.index_of_first('@') {
        Some(at) => (Some(s.skip(at)), true),
        None => match (s.index_of_last(':'), s.index_of_last('/')) {
            (Some(colon), Some(slash)) => if colon > slash {
                (Some(s.skip(colon)), false)
            } else {
                (None, false)
            },
            _ => (None, false),
        },
    }
}

/// The tag or the digest of `image_ref`, with the sign that starts it, and whether it is a digest.
pub fn extract_tag_or_digest(image_ref: &str) -> (r: (Option<String>, bool))
    ensures
        (r.0.deep_view(), r.1) == tag_or_digest(image_ref@),
{
    let chars = chars_of(image_ref);
    let n: usize = chars.len();
    if let Some(at) = find_first(&chars, '@') {
        let digest = image_ref.substring_char(at, n).to_owned();
        assert(digest@ =~= image_ref@.skip(at as int));
        return (Some(digest), true);
    }
    if let Some(colon) = find_last(&chars, ':') {
        if let Some(slash) = find_last(&chars, '/') {
            if colon > slash {
                let tag = image_ref.substring_char(colon, n).to_owned();
                assert(tag@ =~= image_ref@.skip(colon as int));
                return (Some(tag), false);
            }
        }
    }
    (None, false)
}

/// What is taken for the tag or digest ends the reference, starts with the sign that marks it, and
/// is a digest exactly where the reference holds an `@`.
pub proof fn tag_or_digest_ends_the_reference(s: Seq<char>)
    ensures
        tag_or_digest(s).1 <==> s.contains('@'),
        tag_or_digest(s).1 ==> tag_or_digest(s).0 is Some,
        tag_or_digest(s).0 matches Some(t) ==> {
            &&& t.len() > 0
            &&& t.is_suffix_of(s)
            &&& t[0] == if tag_or_digest(s).1 {
                '@'
            } else {
                ':'
            }
        },
{
    s.index_of_first_ensures('@');
    s.index_of_last_ensures(':');
    s.index_of_last_ensures('/');
}

/// Where the repository path of a reference starts: behind the first `/`.
pub open spec fn repository_start(s: Seq<char>) -> int {
    match s.index_of_first('/') {
        Some(i) => i + 1,
        None => 0,
    }
}

/// Where the digest of a reference starts behind its host: at the first `@` there; without one,
/// at the end.
pub open spec fn digest_start(s: Seq<char>) -> int {
    let start = repository_start(s);
    match s.skip(start).index_of_first('@') {
        Some(i) => start + i,
        None => s.len() as int,
    }
}

/// Where the repository path of a reference ends: at its tag, or else at its digest. The tag
/// starts at the last `:` before the digest, where that lies behind the last `/` there; a
/// reference without `/` has no tag.
pub open spec fn repository_end(s: Seq<char>) -> int {
    let at = digest_start(s);
    let named = s.take(at);
    match (named.index_of_last(':'), named.index_of_last('/')) {
        (Some(colon), Some(slash)) => if colon > slash {
            colon
        } else {
            at
        },
        _ => at,
    }
}

/// The repository path of a reference, without host, tag and digest.
pub open spec fn local_repository(s: Seq<char>) -> Seq<char> {
    s.subrange(repository_start(s), repository_end(s))
}

/// The tag that stands between the repository path of a reference and its digest; nothing where
/// it has no digest, or no tag beside it.
pub open spec fn tag_before_digest(s: Seq<char>) -> Seq<char> {
    if s.contains('@') {
        s.subrange(repository_end(s), digest_start(s))
    } else {
        Seq::empty()
    }
}

/// The repository path of a reference lies within the reference, before its digest.
pub proof fn lemma_repository_bounds(s: Seq<char>)
    ensures
        0 <= repository_start(s) <= repository_end(s) <= digest_start(s) <= s.len(),
{
    s.index_of_first_ensures('/');
    let start = repository_start(s);
    let path = s.skip(start);
    path.index_of_first_ensures('@');
    let named = s.take(digest_start(s));
    named.index_of_last_ensures(':');
    named.index_of_last_ensures('/');
    if start > 0 {
        assert(named[start - 1] == '/');
        assert(named.contains('/'));
    }
}

/// The repository path of `image_ref`, behind its first `/` and up to its tag or digest.
pub fn extract_local_repository(image_ref: &str) -> (r: &str)
    ensures
        r@ == local_repository(image_ref@),
{
    let chars = chars_of(image_ref);
    let n: usize = chars.len();
    proof {
        image_ref@.index_of_first_ensures('/');
        lemma_repository_bounds(image_ref@);
    }
    let start: usize = match find_first(&chars, '/') {
        Some(slash) => slash + 1,
        None => 0,
    };
    let path = image_ref.substring_char(start, n);
    assert(path@ =~= image_ref@.skip(start as int));
    let at: usize = match find_first(&chars_of(path), '@') {
        Some(i) => start + i,
        None => n,
    };
    let named = image_ref.substring_char(0, at);
    assert(named@ =~= image_ref@.take(at as int));
    let named_chars = chars_of(named);
    let mut end: usize = at;
    if let Some(colon) = find_last(&named_chars, ':') {
        if let Some(slash) = find_last(&named_chars, '/') {
            if colon > slash {
                end = colon;
            }
        }
    }
    image_ref.substring_char(start, end)
}

/// What is cut off the repository path before the digest is a tag: it starts with a `:` and holds
/// neither a `/` nor another `:`. Where a reference with a `/` has nothing cut off there, there
/// was no tag: every `:` of the path is followed by a `/`. The path never reaches into a digest.
pub proof fn repository_is_cut_at_its_tag(s: Seq<char>)
    ensures
        !local_repository(s).contains('@'),
        ({
            let cut = s.subrange(repository_end(s), digest_start(s));
            if cut.len() > 0 {
                &&& cut[0] == ':'
                &&& !cut.contains('/')
                &&& !cut.skip(1).contains(':')
            } else {
                s.contains('/') ==> forall|i: int|
                    0 <= i < local_repository(s).len() && #[trigger] local_repository(s)[i] == ':'
                        ==> local_repository(s).skip(i).contains('/')
            }
        }),
{
    lemma_repository_bounds(s);
    s.index_of_first_ensures('/');
    let start = repository_start(s);
    let end = repository_end(s);
    let repo = local_repository(s);
    let path = s.skip(start);
    path.index_of_first_ensures('@');
    let named = s.take(digest_start(s));
    named.index_of_last_ensures(':');
    named.index_of_last_ensures('/');
    if repo.contains('@') {
        let i = choose|i: int| 0 <= i < repo.len() && repo[i] == '@';
        assert(path[i] == '@');
    }
    let cut = s.subrange(end, digest_start(s));
    if cut.len() > 0 {
        if cut.contains('/') {
            let k = choose|k: int| 0 <= k < cut.len() && cut[k] == '/';
            assert(named[end + k] == '/');
        }
        if cut.skip(1).contains(':') {
            let k = choose|k: int| 0 <= k < cut.skip(1).len() && cut.skip(1)[k] == ':';
            assert(named[end + 1 + k] == ':');
        }
    } else if s.contains('/') {
        assert forall|i: int| 0 <= i < repo.len() && #[trigger] repo[i] == ':' implies repo.skip(
            i,
        ).contains('/') by {
            assert(named[start - 1] == '/');
            assert(named.contains('/'));
            assert(named[start + i] == ':');
            assert(named.contains(':'));
            let slash = named.index_of_last('/')->0;
            assert(repo.skip(i)[slash - start - i] == '/');
        }
    }
}

/// A reference is its host with the `/`, its repository path, the tag that stands before its
/// digest, and its digest or tag. Left out are references with an `@` in the host part.
pub proof fn reference_splits(s: Seq<char>)
    requires
        s.index_of_first('@') matches Some(at) ==> at >= repository_start(s),
    ensures
        s == s.take(repository_start(s)) + local_repository(s) + tag_before_digest(s)
            + match tag_or_digest(s).0 {
            Some(t) => t,
            None => Seq::<char>::empty(),
        },
{
    s.index_of_first_ensures('/');
    s.index_of_last_ensures('/');
    s.index_of_first_ensures('@');
    s.index_of_last_ensures(':');
    lemma_repository_bounds(s);
    let start = repository_start(s);
    let path = s.skip(start);
    path.index_of_first_ensures('@');
    let named = s.take(digest_start(s));
    named.index_of_last_ensures(':');
    named.index_of_last_ensures('/');
    match s.index_of_first('@') {
        Some(at) => {
            assert(path[at - start] == '@');
            assert(path.contains('@'));
            let i = path.index_of_first('@')->0;
            assert(s[start + i] == '@');
            assert(digest_start(s) == at);
        },
        None => {
            if path.contains('@') {
                let i = choose|i: int| 0 <= i < path.len() && path[i] == '@';
                assert(s[start + i] == '@');
                assert(s.contains('@'));
            }
            assert(named =~= s);
        },
    }
    assert(s =~= s.take(start) + local_repository(s) + tag_before_digest(s) + match tag_or_digest(
        s,
    ).0 {
        Some(t) => t,
        None => Seq::<char>::empty(),
    });
}

/// A reference names the host that stands before its first `/`, or that is all of it, where that
/// has a `.` or a `:` or is `localhost`; otherwise it names none.
pub proof fn host_stands_before_the_first_slash(host: Seq<char>, rest: Seq<char>)
    requires
        !host.contains('/'),
    ensures
        host.contains('.') || host.contains(':') || host == "localhost"@ ==> {
            &&& image_host(host + seq!['/'] + rest) == Some(host)
            &&& image_host(host) == Some(host)
        },
        !host.contains('.') && !host.contains(':') && host != "localhost"@ ==> {
            &&& image_host(host + seq!['/'] + rest) is None
            &&& image_host(host) is None
        },
{
    let s = host + seq!['/'] + rest;
    lemma_first_at(host, '/', rest);
    host.index_of_first_ensures('/');
    assert(s.take(host.len() as int) =~= host);
}

/// The first `c` of a text stands behind what has none.
proof fn lemma_first_at(a: Seq<char>, c: char, b: Seq<char>)
    requires
        !a.contains(c),
    ensures
        (a + seq![c] + b).index_of_first(c) == Some(a.len() as int),
{
    let s = a + seq![c] + b;
    s.index_of_first_ensures(c);
    assert(s[a.len() as int] == c);
    assert(s.contains(c));
    let i = s.index_of_first(c)->0;
    if i < a.len() {
        assert(a[i] == c);
    }
}

/// The last `c` of a text stands before what has none.
proof fn lemma_last_at(a: Seq<char>, c: char, b: Seq<char>)
    requires
        !b.contains(c),
    ensures
        (a + seq![c] + b).index_of_last(c) == Some(a.len() as int),
{
    let s = a + seq![c] + b;
    s.index_of_last_ensures(c);
    assert(s[a.len() as int] == c);
    assert(s.contains(c));
    let i = s.index_of_last(c)->0;
    if i > a.len() {
        assert(b[i - a.len() - 1] == c);
    }
}

/// The digest of a reference is all that follows its first `@`, with the `@`, whatever comes
/// before it.
pub proof fn digest_follows_the_first_at_sign(named: Seq<char>, digest: Seq<char>)
    requires
        !named.contains('@'),
    ensures
        tag_or_digest(named + seq!['@'] + digest) == (Some(seq!['@'] + digest), true),
{
    let s = named + seq!['@'] + digest;
    lemma_first_at(named, '@', digest);
    assert(s.skip(named.len() as int) =~= seq!['@'] + digest);
}

/// The tag of a reference without a digest is all that follows the last `:` behind its last `/`,
/// with the `:`.
pub proof fn tag_follows_the_last_colon(path: Seq<char>, name: Seq<char>, tag: Seq<char>)
    requires
        !path.contains('@') && !name.contains('@') && !tag.contains('@'),
        !name.contains('/') && !tag.contains('/'),
        !tag.contains(':'),
    ensures
        tag_or_digest(path + seq!['/'] + name + seq![':'] + tag) == (Some(seq![':'] + tag), false),
{
    let before = path + seq!['/'] + name;
    let s = before + seq![':'] + tag;
    lemma_last_at(before, ':', tag);
    let behind = name + seq![':'] + tag;
    assert(!behind.contains('/')) by {
        lemma_joined_lack(name, ':', tag, '/');
    }
    assert(s =~= path + seq!['/'] + behind);
    lemma_last_at(path, '/', behind);
    lemma_joined_lack(name, ':', tag, '@');
    lemma_joined_lack(path, '/', behind, '@');
    s.index_of_first_ensures('@');
    assert(s.skip(before.len() as int) =~= seq![':'] + tag);
}

/// A reference without a digest has no tag where no `:` follows its last `/`, or where it has no
/// `/`.
pub proof fn without_a_colon_there_is_no_tag(path: Seq<char>, name: Seq<char>)
    requires
        !path.contains('@') && !name.contains('@'),
        !name.contains('/'),
    ensures
        !name.contains(':') ==> tag_or_digest(path + seq!['/'] + name) == (
            None::<Seq<char>>,
            false,
        ),
        tag_or_digest(name) == (None::<Seq<char>>, false),
{
    let s = path + seq!['/'] + name;
    lemma_last_at(path, '/', name);
    lemma_joined_lack(path, '/', name, '@');
    s.index_of_first_ensures('@');
    s.index_of_last_ensures(':');
    name.index_of_first_ensures('@');
    name.index_of_last_ensures('/');
    if !name.contains(':') && s.contains(':') {
        let i = s.index_of_last(':')->0;
        if i > path.len() {
            assert(name[i - path.len() - 1] == ':');
        }
    }
}

/// What stands in neither of two texts, and is not the character between them, does not stand in
/// the whole.
proof fn lemma_joined_lack(a: Seq<char>, c: char, b: Seq<char>, x: char)
    requires
        !a.contains(x),
        !b.contains(x),
        c != x,
    ensures
        !(a + seq![c] + b).contains(x),
{
    let s = a + seq![c] + b;
    if s.contains(x) {
        let i = choose|i: int| 0 <= i < s.len() && s[i] == x;
        if i < a.len() {
            assert(a[i] == x);
        } else if i > a.len() {
            assert(b[i - a.len() - 1] == x);
        }
    }
}

/// A tag is put together of a `:` and text without `/`, `:` and `@`, or is missing.
pub open spec fn is_tag(tag: Seq<char>) -> bool {
    tag.len() > 0 ==> {
        &&& tag[0] == ':'
        &&& !tag.contains('/')
        &&& !tag.contains('@')
        &&& !tag.skip(1).contains(':')
    }
}

/// The repository path of a reference that was put together of a host, a path whose last segment
/// has no `:`, a tag and a digest, the last two where it has any, is that path.
pub proof fn repository_lies_between_host_and_tag(
    host: Seq<char>,
    folder: Seq<char>,
    name: Seq<char>,
    tag: Seq<char>,
    digest: Seq<char>,
)
    requires
        !host.contains('/'),
        folder.len() > 0 ==> folder.last() == '/',
        !folder.contains('@') && !name.contains('@'),
        !name.contains('/') && !name.contains(':'),
        is_tag(tag),
        digest.len() > 0 ==> digest[0] == '@',
    ensures
        local_repository(host + seq!['/'] + (folder + name + tag + digest)) == folder + name,
{
    let repo = folder + name;
    let path = folder + name + tag + digest;
    let s = host + seq!['/'] + path;
    let start = host.len() as int + 1;
    lemma_first_at(host, '/', path);
    assert(repository_start(s) == start);
    assert(s.skip(start) =~= path);
    let at = start + repo.len() + tag.len();
    let plain = repo + tag;
    assert(!plain.contains('@')) by {
        if plain.contains('@') {
            let i = choose|i: int| 0 <= i < plain.len() && plain[i] == '@';
            if i < folder.len() {
                assert(folder[i] == '@');
            } else if i < repo.len() {
                assert(name[i - folder.len()] == '@');
            } else {
                assert(tag[i - repo.len()] == '@');
            }
        }
    }
    path.index_of_first_ensures('@');
    if digest.len() > 0 {
        assert(path =~= plain + seq!['@'] + digest.skip(1));
        lemma_first_at(plain, '@', digest.skip(1));
    } else {
        assert(path =~= plain);
    }
    assert(digest_start(s) == at);
    let named = s.take(at);
    // The last slash of what precedes the digest stands right before the name.
    let slash = start + folder.len() - 1;
    let ahead = (host + seq!['/'] + folder).drop_last();
    let behind = name + tag;
    assert(!behind.contains('/')) by {
        if behind.contains('/') {
            let i = choose|i: int| 0 <= i < behind.len() && behind[i] == '/';
            if i < name.len() {
                assert(name[i] == '/');
            } else {
                assert(tag[i - name.len()] == '/');
            }
        }
    }
    assert(named =~= ahead + seq!['/'] + behind) by {
        assert(folder.len() == 0 || folder.last() == '/');
    }
    lemma_last_at(ahead, '/', behind);
    assert(ahead.len() == slash);
    named.index_of_last_ensures(':');
    if tag.len() > 0 {
        let before = host + seq!['/'] + repo;
        assert(named =~= before + seq![':'] + tag.skip(1));
        lemma_last_at(before, ':', tag.skip(1));
        assert(repository_end(s) == start + repo.len());
    } else {
        if named.contains(':') {
            let colon = named.index_of_last(':')->0;
            if colon > slash {
                assert(name[colon - slash - 1] == ':');
            }
        }
        assert(repository_end(s) == at);
    }
    assert(local_repository(s) =~= repo);
}

/// A reference without a `/` is all repository path up to its digest.
pub proof fn repository_without_a_host(named: Seq<char>, digest: Seq<char>)
    requires
        !named.contains('/') && !named.contains('@'),
        !digest.contains('/'),
        digest.len() > 0 ==> digest[0] == '@',
    ensures
        local_repository(named + digest) == named,
{
    let s = named + digest;
    s.index_of_first_ensures('/');
    if s.contains('/') {
        let i = s.index_of_first('/')->0;
        if i < named.len() {
            assert(named[i] == '/');
        } else {
            assert(digest[i - named.len()] == '/');
        }
    }
    assert(s.skip(0) =~= s);
    s.index_of_first_ensures('@');
    if digest.len() > 0 {
        assert(s =~= named + seq!['@'] + digest.skip(1));
        lemma_first_at(named, '@', digest.skip(1));
    } else {
        assert(s =~= named);
    }
    let head = s.take(digest_start(s));
    assert(head =~= named);
    head.index_of_last_ensures('/');
    assert(local_repository(s) =~= named);
}

} // verus!
