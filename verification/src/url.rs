//! Which URLs a torrent may be added from.
use vstd::prelude::*;
use crate::ip::{is_forbidden_ip, Ip};
use crate::text;

verus! {

/// The longest URL accepted, in bytes.
pub const URL_MAX_BYTES: usize = 4096;

/// `s` begins with `prefix` when ASCII case is ignored.
pub open spec fn begins_with_any_case(s: Seq<char>, prefix: Seq<char>) -> bool {
    prefix.is_prefix_of(text::ascii_lower(s))
}

/// What follows `http://` or `https://`.
pub open spec fn after_scheme(url: Seq<char>) -> Seq<char> {
    if begins_with_any_case(url, "http://"@) {
        url.skip(7)
    } else {
        url.skip(8)
    }
}

/// A character that ends the host and port.
pub open spec fn ends_authority(c: char) -> bool {
    c == '/' || c == '?' || c == '#'
}

/// `s` up to the first character that ends the host and port.
pub open spec fn authority(s: Seq<char>) -> Seq<char>
    decreases s.len(),
{
    if s.len() == 0 || ends_authority(s[0]) {
        Seq::empty()
    } else {
        seq![s[0]] + authority(s.skip(1))
    }
}

/// The position of the last `c`, or -1.
pub open spec fn last_of(s: Seq<char>, c: char) -> int
    decreases s.len(),
{
    if s.len() == 0 {
        -1
    } else if s.last() == c {
        s.len() - 1
    } else {
        last_of(s.drop_last(), c)
    }
}

/// `s` up to the first `c`.
pub open spec fn up_to(s: Seq<char>, c: char) -> Seq<char>
    decreases s.len(),
{
    if s.len() == 0 || s[0] == c {
        Seq::empty()
    } else {
        seq![s[0]] + up_to(s.skip(1), c)
    }
}

/// The authority without a user name and password.
pub open spec fn without_user(s: Seq<char>) -> Seq<char> {
    s.skip(last_of(s, '@') + 1)
}

/// A host in brackets, which may hold colons.
pub open spec fn is_bracketed(s: Seq<char>) -> bool {
    s.len() > 0 && s[0] == '[' && s.contains(']')
}

/// The host without the port and without brackets.
pub open spec fn without_port(s: Seq<char>) -> Seq<char> {
    if is_bracketed(s) {
        up_to(s.skip(1), ']')
    } else if last_of(s, ':') >= 0 && !(s[0] == '[' && last_of(s, ':') > 0) {
        s.take(last_of(s, ':'))
    } else {
        s
    }
}

/// The host that a URL names.
pub open spec fn host(url: Seq<char>) -> Seq<char> {
    without_port(without_user(authority(after_scheme(url))))
}

/// Host names that never stand for a public host.
pub open spec fn is_forbidden_name(host: Seq<char>) -> bool {
    let h = text::ascii_lower(host);
    ||| h == "localhost"@
    ||| ".localhost"@.is_suffix_of(h)
    ||| h == "metadata.google.internal"@
    ||| h == "metadata"@
}

/// What is wrong with the form of a URL, if anything is.
pub open spec fn form_problem(url: Seq<char>) -> Option<Seq<char>> {
    if begins_with_any_case(url, "magnet:"@) {
        Some("magnet links not yet supported"@)
    } else if !begins_with_any_case(url, "http://"@) && !begins_with_any_case(url, "https://"@) {
        Some("only http, https, and magnet URLs are accepted"@)
    } else if vstd::utf8::encode_utf8(url).len() > URL_MAX_BYTES {
        Some("URL too long"@)
    } else if host(url).len() == 0 {
        Some("URL missing host"@)
    } else {
        None
    }
}

/// What is wrong with a host, which reads as the address `literal` or as none.
pub open spec fn host_problem(host: Seq<char>, literal: Option<Ip>) -> Option<Seq<char>> {
    match literal {
        Some(ip) => if crate::ip::is_forbidden(ip) {
            Some("URL host resolves to a forbidden IP range"@)
        } else {
            None
        },
        None => if is_forbidden_name(host) {
            Some("URL host is forbidden"@)
        } else {
            None
        },
    }
}

/// What is wrong with a URL whose host reads as the address `literal` or as none.
pub open spec fn url_problem(url: Seq<char>, literal: Option<Ip>) -> Option<Seq<char>> {
    match form_problem(url) {
        Some(problem) => Some(problem),
        None => host_problem(host(url), literal),
    }
}

/// The host that an acceptable URL names, or what is wrong with the URL's form.
pub fn add_url_host(url: &str) -> (r: Result<String, &'static str>)
    ensures
        match r {
            Ok(h) => form_problem(url@) is None && h@ == host(url@),
            Err(e) => form_problem(url@) == Some(e@),
        },
{
    let chars = text::chars_of(url);
    let lower = text::lowered(&chars);
    if text::starts_with(&lower, &text::chars_of("magnet:")) {
        return Err("magnet links not yet supported");
    }
    let plain = text::starts_with(&lower, &text::chars_of("http://"));
    let secure = text::starts_with(&lower, &text::chars_of("https://"));
    if !plain && !secure {
        return Err("only http, https, and magnet URLs are accepted");
    }
    if url.as_bytes().len() > URL_MAX_BYTES {
        return Err("URL too long");
    }
    proof {
        reveal_strlit("http://");
        reveal_strlit("https://");
    }
    let from: usize = if plain {
        7
    } else {
        8
    };
    let rest = text::part(&chars, from, chars.len());
    let auth = take_authority(&rest);
    let named = drop_port(&drop_user(&auth));
    if named.len() == 0 {
        return Err("URL missing host");
    }
    Ok(text::string_of(&named))
}

fn take_authority(s: &[char]) -> (r: Vec<char>)
    ensures
        r@ == authority(s@),
{
    let mut out: Vec<char> = Vec::new();
    let mut i: usize = 0;
    assert(s@.skip(0) == s@);
    while i < s.len() && s[i] != '/' && s[i] != '?' && s[i] != '#'
        invariant
            i <= s@.len(),
            out@ + authority(s@.skip(i as int)) == authority(s@),
        decreases s@.len() - i,
    {
        let ghost rest = s@.skip(i as int);
        assert(rest.skip(1) == s@.skip(i + 1));
        out.push(s[i]);
        i += 1;
    }
    out
}

/// The position after the last `c`, or 0.
fn after_last(s: &[char], c: char) -> (r: usize)
    ensures
        r == last_of(s@, c) + 1,
        r <= s@.len(),
{
    let mut end: usize = s.len();
    assert(s@.take(s@.len() as int) == s@);
    while end > 0 && s[end - 1] != c
        invariant
            end <= s@.len(),
            last_of(s@.take(end as int), c) == last_of(s@, c),
        decreases end,
    {
        assert(s@.take(end as int).drop_last() == s@.take(end - 1));
        end -= 1;
    }
    end
}

fn drop_user(s: &[char]) -> (r: Vec<char>)
    ensures
        r@ == without_user(s@),
{
    let from = after_last(s, '@');
    text::part(s, from, s.len())
}

/// The characters before the first closing bracket, if there is one.
fn before_bracket(s: &[char]) -> (r: Option<Vec<char>>)
    ensures
        match r {
            Some(t) => s@.contains(']') && t@ == up_to(s@, ']'),
            None => !s@.contains(']'),
        },
{
    let mut out: Vec<char> = Vec::new();
    let mut i: usize = 0;
    assert(s@.skip(0) == s@);
    while i < s.len()
        invariant
            i <= s@.len(),
            out@ + up_to(s@.skip(i as int), ']') == up_to(s@, ']'),
            forall|j: int| 0 <= j < i ==> s@[j] != ']',
        decreases s@.len() - i,
    {
        if s[i] == ']' {
            return Some(out);
        }
        let ghost rest = s@.skip(i as int);
        assert(rest.skip(1) == s@.skip(i + 1));
        out.push(s[i]);
        i += 1;
    }
    None
}

fn drop_port(s: &[char]) -> (r: Vec<char>)
    ensures
        r@ == without_port(s@),
{
    if s.len() > 0 && s[0] == '[' {
        let inner = text::part(s, 1, s.len());
        assert(s@.contains(']') == inner@.contains(']')) by {
            if s@.contains(']') {
                let k = choose|k: int| 0 <= k < s@.len() && s@[k] == ']';
                assert(inner@[k - 1] == ']');
            }
        }
        if let Some(t) = before_bracket(&inner) {
            return t;
        }
    }
    let colon = after_last(s, ':');
    if colon == 0 || (colon > 1 && s[0] == '[') {
        return vstd::slice::slice_to_vec(s);
    }
    text::part(s, 0, colon - 1)
}

fn forbidden_name(host: &str) -> (r: bool)
    ensures
        r == is_forbidden_name(host@),
{
    let h = text::lowered(&text::chars_of(host));
    text::same(&h, &text::chars_of("localhost")) || text::ends_with(
        &h,
        &text::chars_of(".localhost"),
    ) || text::same(&h, &text::chars_of("metadata.google.internal")) || text::same(
        &h,
        &text::chars_of("metadata"),
    )
}

/// Whether a torrent may be added from `url`, where `literal` is the address that the URL's host
/// reads as, or none if the host is a name.
pub fn judge_add_url(url: &str, literal: Option<Ip>) -> (r: Result<(), &'static str>)
    ensures
        match r {
            Ok(()) => url_problem(url@, literal) is None,
            Err(e) => url_problem(url@, literal) == Some(e@),
        },
{
    let named = match add_url_host(url) {
        Ok(h) => h,
        Err(e) => {
            return Err(e);
        },
    };
    match literal {
        Some(ip) => {
            if is_forbidden_ip(&ip) {
                return Err("URL host resolves to a forbidden IP range");
            }
        },
        None => {
            if forbidden_name(&named) {
                return Err("URL host is forbidden");
            }
        },
    }
    Ok(())
}

/// `problem` is what is wrong with a URL whose host, and nothing else, the reader was asked about.
pub open spec fn judged<F: Fn(&str) -> Option<Ip>>(
    read: F,
    url: Seq<char>,
    problem: Option<Seq<char>>,
) -> bool {
    if form_problem(url) is Some {
        problem == form_problem(url)
    } else {
        exists|literal: Option<Ip>| #[trigger]
            crate::ip::reads(read, host(url), literal) && problem == host_problem(
                host(url),
                literal,
            )
    }
}

/// The address that the host of a URL reads as, or none if the host is a name or there is none.
pub fn read_host<F: Fn(&str) -> Option<Ip>>(url: &str, read: &F) -> (r: Option<Ip>)
    requires
        crate::ip::is_reader(*read),
    ensures
        form_problem(url@) is None ==> crate::ip::reads(*read, host(url@), r),
        form_problem(url@) is Some ==> r is None,
{
    match add_url_host(url) {
        Ok(h) => read(&h),
        Err(_) => None,
    }
}

/// Whether a torrent may be added from `url`. `read` tells the address that a text stands for.
pub fn validate_add_url<F: Fn(&str) -> Option<Ip>>(url: &str, read: &F) -> (r: Result<
    (),
    &'static str,
>)
    requires
        crate::ip::is_reader(*read),
    ensures
        match r {
            Ok(()) => judged(*read, url@, None),
            Err(e) => judged(*read, url@, Some(e@)),
        },
{
    judge_add_url(url, read_host(url, read))
}

/// A URL that is accepted is an http or https URL that names a host, and that host is neither a
/// forbidden address nor a forbidden name.
pub proof fn accepted_urls_name_public_hosts(url: Seq<char>, literal: Option<Ip>)
    requires
        url_problem(url, literal) is None,
    ensures
        begins_with_any_case(url, "http://"@) || begins_with_any_case(url, "https://"@),
        !begins_with_any_case(url, "magnet:"@),
        vstd::utf8::encode_utf8(url).len() <= URL_MAX_BYTES,
        host(url).len() > 0,
        literal matches Some(ip) ==> !crate::ip::is_forbidden(ip),
        literal is None ==> !is_forbidden_name(host(url)),
{
}

/// A URL that is accepted names a host that no reading of it, if they all agree, takes for a
/// forbidden address, and that is no forbidden name unless it reads as an address.
pub proof fn validated_urls_name_public_hosts<F: Fn(&str) -> Option<Ip>>(
    read: F,
    url: Seq<char>,
    literal: Option<Ip>,
)
    requires
        judged(read, url, None),
        crate::ip::reads(read, host(url), literal),
        forall|a: Option<Ip>, b: Option<Ip>| #[trigger]
            crate::ip::reads(read, host(url), a) && #[trigger] crate::ip::reads(read, host(url), b)
                ==> a == b,
    ensures
        url_problem(url, literal) is None,
        literal matches Some(ip) ==> !crate::ip::is_forbidden(ip),
        literal is None ==> !is_forbidden_name(host(url)),
{
}

/// Magnet links are refused, in whatever case they are written.
pub proof fn magnet_links_are_refused(url: Seq<char>, literal: Option<Ip>)
    requires
        begins_with_any_case(url, "magnet:"@),
    ensures
        url_problem(url, literal) == Some("magnet links not yet supported"@),
{
}

/// `http://` or `https://`, in whatever case it is written.
pub open spec fn is_scheme(s: Seq<char>) -> bool {
    text::ascii_lower(s) == "http://"@ || text::ascii_lower(s) == "https://"@
}

/// `part` can stand within the part of a URL that names its host.
pub open spec fn is_inside(part: Seq<char>) -> bool {
    forall|i: int| 0 <= i < part.len() ==> !ends_authority(#[trigger] part[i])
}

/// A user name, and a password after a colon, with the sign that ends them; or nothing.
pub open spec fn is_user_part(part: Seq<char>) -> bool {
    is_inside(part) && (part.len() == 0 || part.last() == '@')
}

/// A port with the colon before it; or nothing.
pub open spec fn is_port_part(part: Seq<char>) -> bool {
    &&& is_inside(part) && !part.contains('@')
    &&& part.len() == 0 || (part[0] == ':' && !part.skip(1).contains(':'))
}

/// What may follow the host and port: a path, a query or a fragment; or nothing.
pub open spec fn is_rest(part: Seq<char>) -> bool {
    part.len() == 0 || ends_authority(part[0])
}

/// The host of `scheme://user@name:port/rest` is the name, with or without a user, a port and what
/// follows them.
pub proof fn host_is_the_name(
    scheme: Seq<char>,
    user: Seq<char>,
    name: Seq<char>,
    port: Seq<char>,
    rest: Seq<char>,
)
    requires
        is_scheme(scheme),
        is_user_part(user),
        is_inside(name) && !name.contains('@') && !name.contains(':'),
        name.len() > 0 ==> name[0] != '[',
        is_port_part(port),
        is_rest(rest),
    ensures
        host(scheme + user + name + port + rest) == name,
{
    let named = name + port;
    lemma_host_part(scheme, user, named, rest);
    assert(scheme + user + name + port + rest =~= scheme + user + named + rest);
    if port.len() > 0 {
        assert(named =~= name.push(':') + port.skip(1));
        lemma_last_of_after(name, ':', port.skip(1));
        assert(named.take(name.len() as int) =~= name);
    } else {
        assert(named =~= name);
        lemma_no_last(name, ':');
    }
}

/// The host of `scheme://user@[inner]:port/rest` is what stands in the brackets, with or without a
/// user, a port and what follows them.
pub proof fn host_is_inside_brackets(
    scheme: Seq<char>,
    user: Seq<char>,
    inner: Seq<char>,
    port: Seq<char>,
    rest: Seq<char>,
)
    requires
        is_scheme(scheme),
        is_user_part(user),
        is_inside(inner) && !inner.contains('@') && !inner.contains(']'),
        is_port_part(port),
        is_rest(rest),
    ensures
        host(scheme + user + seq!['['] + inner + seq![']'] + port + rest) == inner,
{
    let named = seq!['['] + inner + seq![']'] + port;
    assert(!named.contains('@')) by {
        if named.contains('@') {
            let k = choose|k: int| 0 <= k < named.len() && named[k] == '@';
            if k > inner.len() + 1 {
                assert(port[k - inner.len() - 2] == '@');
            } else if 0 < k <= inner.len() {
                assert(inner[k - 1] == '@');
            }
        }
    }
    lemma_host_part(scheme, user, named, rest);
    assert(scheme + user + seq!['['] + inner + seq![']'] + port + rest =~= scheme + user + named
        + rest);
    assert(named[inner.len() as int + 1] == ']');
    assert(named.skip(1) =~= inner.push(']') + port);
    lemma_up_to_found(inner, ']', port);
}

/// What is left of a URL once the scheme, the user and the rest are gone.
proof fn lemma_host_part(scheme: Seq<char>, user: Seq<char>, named: Seq<char>, rest: Seq<char>)
    requires
        is_scheme(scheme),
        is_user_part(user),
        is_inside(named),
        !named.contains('@'),
        is_rest(rest),
    ensures
        without_user(authority(after_scheme(scheme + user + named + rest))) == named,
{
    let url = scheme + user + named + rest;
    let a = user + named;
    reveal_strlit("http://");
    reveal_strlit("https://");
    assert(scheme.len() == text::ascii_lower(scheme).len());
    assert forall|i: int| 0 <= i < scheme.len() implies text::ascii_lower(url)[i]
        == text::ascii_lower(scheme)[i] by {
        assert(url[i] == scheme[i]);
    }
    if text::ascii_lower(scheme) == "http://"@ {
        assert("http://"@ =~= text::ascii_lower(url).subrange(0, 7));
    } else {
        assert("http://"@[4] == ':' && text::ascii_lower(url)[4] == 's');
    }
    assert(after_scheme(url) =~= a + rest);
    lemma_authority(a, rest);
    if user.len() > 0 {
        assert(a =~= user.drop_last().push('@') + named);
        lemma_last_of_after(user.drop_last(), '@', named);
        assert(a.skip(user.len() as int) =~= named);
    } else {
        assert(a =~= named);
        lemma_no_last(named, '@');
        assert(named.skip(0) =~= named);
    }
}

proof fn lemma_authority(a: Seq<char>, rest: Seq<char>)
    requires
        is_inside(a),
        is_rest(rest),
    ensures
        authority(a + rest) == a,
    decreases a.len(),
{
    let s = a + rest;
    if a.len() > 0 {
        assert(s.skip(1) =~= a.skip(1) + rest);
        lemma_authority(a.skip(1), rest);
        assert(seq![a[0]] + a.skip(1) =~= a);
    } else {
        assert(s =~= rest);
    }
}

proof fn lemma_no_last(s: Seq<char>, c: char)
    requires
        !s.contains(c),
    ensures
        last_of(s, c) == -1,
    decreases s.len(),
{
    if s.len() > 0 {
        assert(s[s.len() - 1] != c);
        assert forall|k: int| 0 <= k < s.len() - 1 implies s.drop_last()[k] != c by {
            assert(s[k] != c);
        }
        lemma_no_last(s.drop_last(), c);
    }
}

proof fn lemma_last_of_after(a: Seq<char>, c: char, b: Seq<char>)
    requires
        !b.contains(c),
    ensures
        last_of(a.push(c) + b, c) == a.len(),
    decreases b.len(),
{
    let s = a.push(c) + b;
    if b.len() > 0 {
        assert(b[b.len() - 1] != c);
        assert forall|k: int| 0 <= k < b.len() - 1 implies b.drop_last()[k] != c by {
            assert(b[k] != c);
        }
        lemma_last_of_after(a, c, b.drop_last());
        assert(s.drop_last() =~= a.push(c) + b.drop_last());
    } else {
        assert(s =~= a.push(c));
    }
}

proof fn lemma_up_to_found(a: Seq<char>, c: char, b: Seq<char>)
    requires
        !a.contains(c),
    ensures
        up_to(a.push(c) + b, c) == a,
    decreases a.len(),
{
    let s = a.push(c) + b;
    if a.len() > 0 {
        assert(a[0] != c);
        assert forall|k: int| 0 <= k < a.len() - 1 implies a.skip(1)[k] != c by {
            assert(a[k + 1] != c);
        }
        assert(s.skip(1) =~= a.skip(1).push(c) + b);
        lemma_up_to_found(a.skip(1), c, b);
        assert(seq![a[0]] + a.skip(1) =~= a);
    } else {
        assert(s[0] == c);
    }
}

/// The host of a URL ends before any path, query or fragment.
pub proof fn host_has_no_path(url: Seq<char>)
    ensures
        forall|i: int| 0 <= i < host(url).len() ==> !ends_authority(#[trigger] host(url)[i]),
{
    let a = authority(after_scheme(url));
    let h = without_user(a);
    lemma_authority_has_no_path(after_scheme(url));
    lemma_last_of(a, '@');
    lemma_last_of(h, ':');
    if is_bracketed(h) {
        lemma_up_to(h.skip(1), ']');
    }
}

proof fn lemma_authority_has_no_path(s: Seq<char>)
    ensures
        forall|i: int| 0 <= i < authority(s).len() ==> !ends_authority(#[trigger] authority(s)[i]),
    decreases s.len(),
{
    if s.len() > 0 && !ends_authority(s[0]) {
        lemma_authority_has_no_path(s.skip(1));
        assert forall|i: int| 0 <= i < authority(s).len() implies !ends_authority(
            #[trigger] authority(s)[i],
        ) by {
            if i > 0 {
                assert(authority(s)[i] == authority(s.skip(1))[i - 1]);
            }
        }
    }
}

proof fn lemma_up_to(s: Seq<char>, c: char)
    ensures
        up_to(s, c).len() <= s.len(),
        forall|i: int| 0 <= i < up_to(s, c).len() ==> #[trigger] up_to(s, c)[i] == s[i],
    decreases s.len(),
{
    if s.len() > 0 && s[0] != c {
        lemma_up_to(s.skip(1), c);
    }
}

proof fn lemma_last_of(s: Seq<char>, c: char)
    ensures
        -1 <= last_of(s, c) < s.len(),
    decreases s.len(),
{
    if s.len() > 0 {
        lemma_last_of(s.drop_last(), c);
    }
}

/// What is answered for each URL, by the small letters that it begins with, its length in bytes, the
/// host that it names and what that host reads as.
pub proof fn urls_are_answered_by_form_and_host(url: Seq<char>, literal: Option<Ip>)
    ensures
        ({
            let lower = text::ascii_lower(url);
            let bytes = vstd::utf8::encode_utf8(url).len();
            let web = "http://"@.is_prefix_of(lower) || "https://"@.is_prefix_of(lower);
            let name = text::ascii_lower(host(url));
            let local = name == "localhost"@ || ".localhost"@.is_suffix_of(name) || name
                == "metadata"@ || name == "metadata.google.internal"@;
            let p = url_problem(url, literal);
            &&& "magnet:"@.is_prefix_of(lower) ==> p == Some("magnet links not yet supported"@)
            &&& !"magnet:"@.is_prefix_of(lower) && !web ==> p == Some(
                "only http, https, and magnet URLs are accepted"@,
            )
            &&& web && bytes > 4096 ==> p == Some("URL too long"@)
            &&& web && bytes <= 4096 && host(url).len() == 0 ==> p == Some("URL missing host"@)
            &&& web && bytes <= 4096 && host(url).len() > 0 ==> match literal {
                Some(ip) => p == if crate::ip::is_forbidden(ip) {
                    Some("URL host resolves to a forbidden IP range"@)
                } else {
                    None
                },
                None => p == if local {
                    Some("URL host is forbidden"@)
                } else {
                    None
                },
            }
        }),
{
    let lower = text::ascii_lower(url);
    reveal_strlit("magnet:");
    reveal_strlit("http://");
    reveal_strlit("https://");
    if "magnet:"@.is_prefix_of(lower) {
        assert(lower.subrange(0, 7)[0] == 'm');
        assert(!"http://"@.is_prefix_of(lower)) by {
            assert("http://"@[0] == 'h' && lower.subrange(0, 7)[0] == lower[0]);
        }
        assert(!"https://"@.is_prefix_of(lower)) by {
            assert("https://"@[0] == 'h');
            if "https://"@.is_prefix_of(lower) {
                assert(lower.subrange(0, 8)[0] == lower[0]);
            }
        }
    }
}

/// What a URL is told is what its host reads as makes of it, if the reader gives one answer only.
pub proof fn judgement_follows_the_reading<F: Fn(&str) -> Option<Ip>>(
    read: F,
    url: Seq<char>,
    literal: Option<Ip>,
    problem: Option<Seq<char>>,
)
    requires
        crate::ip::reads(read, host(url), literal),
        forall|a: Option<Ip>, b: Option<Ip>| #[trigger]
            crate::ip::reads(read, host(url), a) && #[trigger] crate::ip::reads(read, host(url), b)
                ==> a == b,
    ensures
        judged(read, url, problem) <==> problem == url_problem(url, literal),
{
}

/// The port begins at the last colon: a name that is followed by one may hold others.
pub proof fn host_ends_at_the_last_colon(
    scheme: Seq<char>,
    user: Seq<char>,
    name: Seq<char>,
    port: Seq<char>,
    rest: Seq<char>,
)
    requires
        is_scheme(scheme),
        is_user_part(user),
        is_inside(name) && !name.contains('@'),
        name.len() > 0 ==> name[0] != '[',
        is_port_part(port) && port.len() > 0,
        is_rest(rest),
    ensures
        host(scheme + user + name + port + rest) == name,
{
    let named = name + port;
    assert(!named.contains('@')) by {
        if named.contains('@') {
            let k = choose|k: int| 0 <= k < named.len() && named[k] == '@';
            if k < name.len() {
                assert(name[k] == '@');
            } else {
                assert(port[k - name.len()] == '@');
            }
        }
    }
    lemma_host_part(scheme, user, named, rest);
    assert(scheme + user + name + port + rest =~= scheme + user + named + rest);
    assert(named =~= name.push(':') + port.skip(1));
    lemma_last_of_after(name, ':', port.skip(1));
    assert(named.take(name.len() as int) =~= name);
}

/// An opening bracket that is never closed keeps all that follows it in the host.
pub proof fn open_brackets_keep_the_host(
    scheme: Seq<char>,
    user: Seq<char>,
    named: Seq<char>,
    rest: Seq<char>,
)
    requires
        is_scheme(scheme),
        is_user_part(user),
        is_inside(named) && !named.contains('@') && !named.contains(']'),
        named.len() > 0 && named[0] == '[',
        is_rest(rest),
    ensures
        host(scheme + user + named + rest) == named,
{
    lemma_host_part(scheme, user, named, rest);
    lemma_last_of_finds(named, ':');
}

proof fn lemma_last_of_finds(s: Seq<char>, c: char)
    ensures
        -1 <= last_of(s, c) < s.len(),
        last_of(s, c) >= 0 ==> s[last_of(s, c)] == c,
    decreases s.len(),
{
    if s.len() > 0 {
        lemma_last_of_finds(s.drop_last(), c);
    }
}

/// The host and port end at a slash, a question mark or a number sign, and at nothing else: the host
/// of a URL holds none of them.
pub proof fn path_query_and_fragment_end_the_host(url: Seq<char>, c: char, i: int)
    ensures
        ends_authority(c) <==> c as int == 0x2f || c as int == 0x3f || c as int == 0x23,
        0 <= i < host(url).len() ==> host(url)[i] != '/' && host(url)[i] != '?' && host(url)[i]
            != '#',
{
    host_has_no_path(url);
    if 0 <= i < host(url).len() {
        assert(!ends_authority(host(url)[i]));
    }
}

} // verus!
