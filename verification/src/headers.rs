//! HTTP headers, by means of `http`.

use crate::config::Settings;
use crate::error::{Failure, ProxyError};
use crate::text::{concat, has_prefix, lower_name, same_text, strip_prefix};
use vstd::prelude::*;
use vstd::string::*;
use vstd::utf8::*;

verus! {

/// `http::HeaderMap`: a multimap from header names to values.
#[verifier::external_type_specification]
#[verifier::external_body]
#[verifier::reject_recursive_types(T)]
pub struct ExHeaderMap<T>(http::HeaderMap<T>);

/// `http::HeaderName`: a header name, in lower case.
#[verifier::external_type_specification]
#[verifier::external_body]
pub struct ExHeaderName(http::HeaderName);

/// `http::HeaderValue`: the bytes of a header value.
#[verifier::external_type_specification]
#[verifier::external_body]
pub struct ExHeaderValue(http::HeaderValue);

/// What a header map holds: the first value under each name.
pub uninterp spec fn header_contents(headers: http::HeaderMap<http::HeaderValue>) -> Map<
    Seq<char>,
    Seq<u8>,
>;

/// What a map without headers holds.
pub open spec fn nothing() -> Map<Seq<char>, Seq<u8>> {
    Map::empty()
}

/// The text of a header name.
pub uninterp spec fn name_text(name: http::HeaderName) -> Seq<char>;

/// The bytes of a header value.
pub uninterp spec fn value_bytes(value: http::HeaderValue) -> Seq<u8>;

/// Whether a character may stand in a header name.
pub open spec fn is_token_char(c: char) -> bool {
    ||| 'a' <= c <= 'z'
    ||| 'A' <= c <= 'Z'
    ||| '0' <= c <= '9'
    ||| c == '!' || c == '#' || c == '$' || c == '%' || c == '&' || c == '\'' || c == '*'
    ||| c == '+' || c == '-' || c == '.' || c == '^' || c == '_' || c == '`' || c == '|'
    ||| c == '~'
}

/// Whether a text is a header name.
pub open spec fn is_header_name(s: Seq<char>) -> bool {
    1 <= s.len() <= 65535 && forall|i: int| 0 <= i < s.len() ==> is_token_char(#[trigger] s[i])
}

/// Whether bytes are a header value: no control characters but the tab.
pub open spec fn is_header_value(bytes: Seq<u8>) -> bool {
    forall|i: int|
        0 <= i < bytes.len() ==> (#[trigger] bytes[i] >= 32 && bytes[i] != 127) || bytes[i] == 9
}

/// Whether bytes are visible ASCII, with blanks and tabs.
pub open spec fn is_visible(bytes: Seq<u8>) -> bool {
    forall|i: int| 0 <= i < bytes.len() ==> (32 <= #[trigger] bytes[i] < 127) || bytes[i] == 9
}

/// ASCII bytes as text.
pub open spec fn ascii_text(bytes: Seq<u8>) -> Seq<char> {
    Seq::new(bytes.len(), |i: int| bytes[i] as char)
}

/// `<http::HeaderName as FromStr>::from_str`: takes names of 1 to 65535 token
/// characters, and puts them into lower case.
#[verifier::external_body]
fn parse_name(s: &str) -> (name: Result<http::HeaderName, String>)
    ensures
        name is Ok <==> is_header_name(s@),
        name matches Ok(n) ==> name_text(n) == lower_name(s@),
        name matches Err(e) ==> e@ == "invalid HTTP header name"@,
{
    s.parse::<http::HeaderName>().map_err(|e| e.to_string())
}

/// `http::HeaderValue::from_str`: takes texts without control characters other than the
/// tab, byte for byte.
#[verifier::external_body]
fn parse_header_value(s: &str) -> (value: Result<http::HeaderValue, String>)
    ensures
        value is Ok <==> is_header_value(encode_utf8(s@)),
        value matches Ok(v) ==> value_bytes(v) == encode_utf8(s@),
        value matches Err(e) ==> e@ == "failed to parse header value"@,
{
    http::HeaderValue::from_str(s).map_err(|e| e.to_string())
}

/// `http::HeaderMap::new`: a map without headers.
#[verifier::external_body]
fn no_headers() -> (headers: http::HeaderMap<http::HeaderValue>)
    ensures
        header_contents(headers) == nothing(),
{
    http::HeaderMap::new()
}

/// `http::HeaderMap::insert`: the value replaces all values under its name. It panics
/// where the map would have to grow past 32768 places. Long probes make it grow only
/// where a fifth of the places are taken, so that a map of up to 6553 names never does.
#[verifier::external_body]
fn insert_header(
    headers: &mut http::HeaderMap<http::HeaderValue>,
    name: http::HeaderName,
    value: http::HeaderValue,
)
    requires
        header_contents(*old(headers)).dom().finite(),
        header_contents(*old(headers)).dom().len() < 6554,
    ensures
        header_contents(*final(headers)) == header_contents(*old(headers)).insert(
            name_text(name),
            value_bytes(value),
        ),
{
    let _ = headers.insert(name, value);
}

/// `http::HeaderMap::get`, with a name in lower case: the first value under it.
#[verifier::external_body]
fn first_header<'a>(headers: &'a http::HeaderMap<http::HeaderValue>, name: &str) -> (value: Option<
    &'a http::HeaderValue,
>)
    requires
        is_header_name(name@),
        lower_name(name@) == name@,
    ensures
        value is Some <==> header_contents(*headers).contains_key(name@),
        value matches Some(v) ==> header_contents(*headers)[name@] == value_bytes(*v),
{
    headers.get(name)
}

/// `http::HeaderValue::to_str`: the text of a value that is visible ASCII.
#[verifier::external_body]
fn value_text(value: &http::HeaderValue) -> (s: Option<String>)
    ensures
        s is Some <==> is_visible(value_bytes(*value)),
        s matches Some(t) ==> t@ == ascii_text(value_bytes(*value)),
{
    value.to_str().ok().map(|s| s.to_owned())
}

/// Headers that are to be sent: the name and the value of each.
pub open spec fn configured_headers(settings: Settings) -> Seq<(Seq<char>, Seq<char>)> {
    Seq::new(
        settings.upstream_headers.spec_entries().len(),
        |i: int|
            (
                settings.upstream_headers.spec_entries()[i].0@,
                settings.upstream_headers.spec_entries()[i].1@,
            ),
    )
}

/// The value of the header that authenticates the proxy.
pub open spec fn auth_value(settings: Settings) -> Seq<char> {
    settings.upstream_api_key_prefix@ + settings.upstream_api_key@
}

/// The headers `base` with one more.
pub open spec fn with_header(
    base: Map<Seq<char>, Seq<u8>>,
    name: Seq<char>,
    value: Seq<char>,
) -> Map<Seq<char>, Seq<u8>> {
    base.insert(lower_name(name), encode_utf8(value))
}

/// The headers `base` with those of a list, or what is wrong with the first faulty one.
pub open spec fn with_headers(
    base: Map<Seq<char>, Seq<u8>>,
    list: Seq<(Seq<char>, Seq<char>)>,
) -> Result<Map<Seq<char>, Seq<u8>>, Failure>
    decreases list.len(),
{
    if list.len() == 0 {
        Ok(base)
    } else {
        let (name, value) = list.last();
        match with_headers(base, list.drop_last()) {
            Err(e) => Err(e),
            Ok(m) => if !is_header_name(name) {
                Err(
                    Failure::InvalidConfig(
                        "invalid upstream header `"@ + name + "`: "@ + "invalid HTTP header name"@,
                    ),
                )
            } else if !is_header_value(encode_utf8(value)) {
                Err(
                    Failure::InvalidConfig(
                        "invalid upstream header value for `"@ + name + "`: "@
                            + "failed to parse header value"@,
                    ),
                )
            } else {
                Ok(with_header(m, name, value))
            },
        }
    }
}

/// The headers of upstream requests, or what is wrong with the settings.
pub open spec fn upstream_headers(settings: Settings) -> Result<
    Map<Seq<char>, Seq<u8>>,
    Failure,
> {
    if !is_header_name(settings.upstream_api_key_header_name@) {
        Err(
            Failure::InvalidConfig(
                "invalid upstream_api_key_header_name: "@ + "invalid HTTP header name"@,
            ),
        )
    } else if !is_header_value(encode_utf8(auth_value(settings))) {
        Err(
            Failure::InvalidConfig(
                "invalid upstream auth header value: "@ + "failed to parse header value"@,
            ),
        )
    } else {
        with_headers(
            with_header(
                Map::empty(),
                settings.upstream_api_key_header_name@,
                auth_value(settings),
            ),
            configured_headers(settings),
        )
    }
}

/// The headers `base` with those of a list that can be sent.
pub open spec fn with_sendable_headers(
    base: Map<Seq<char>, Seq<u8>>,
    list: Seq<(Seq<char>, Seq<char>)>,
) -> Map<Seq<char>, Seq<u8>>
    decreases list.len(),
{
    if list.len() == 0 {
        base
    } else {
        let (name, value) = list.last();
        let m = with_sendable_headers(base, list.drop_last());
        if is_header_name(name) && is_header_value(encode_utf8(value)) {
            with_header(m, name, value)
        } else {
            m
        }
    }
}

/// The headers of probes: what cannot be sent is left out, and the default name stands
/// in for a faulty one.
pub open spec fn probe_headers(settings: Settings) -> Map<Seq<char>, Seq<u8>> {
    let name = if is_header_name(settings.upstream_api_key_header_name@) {
        settings.upstream_api_key_header_name@
    } else {
        "authorization"@
    };
    let base = if is_header_value(encode_utf8(auth_value(settings))) {
        with_header(Map::empty(), name, auth_value(settings))
    } else {
        Map::empty()
    };
    with_sendable_headers(base, configured_headers(settings))
}

proof fn lemma_headers_failure(
    base: Map<Seq<char>, Seq<u8>>,
    list: Seq<(Seq<char>, Seq<char>)>,
    i: int,
)
    requires
        0 <= i <= list.len(),
        with_headers(base, list.take(i)) is Err,
    ensures
        with_headers(base, list) == with_headers(base, list.take(i)),
    decreases list.len() - i,
{
    if i < list.len() {
        assert(list.take(i + 1).drop_last() =~= list.take(i));
        lemma_headers_failure(base, list, i + 1);
    } else {
        assert(list.take(i) =~= list);
    }
}

/// The headers of upstream requests.
pub fn build_headers(settings: &Settings) -> (r: Result<
    http::HeaderMap<http::HeaderValue>,
    ProxyError,
>)
    requires
        settings.upstream_headers.spec_entries().len() < 6554,
    ensures
        match r {
            Ok(h) => upstream_headers(*settings) == Ok::<Map<Seq<char>, Seq<u8>>, Failure>(
                header_contents(h),
            ),
            Err(e) => upstream_headers(*settings) == Err::<Map<Seq<char>, Seq<u8>>, Failure>(e@),
        },
{
    let mut headers = no_headers();
    let name = match parse_name(settings.upstream_api_key_header_name.as_str()) {
        Ok(n) => n,
        Err(e) => return Err(
            ProxyError::InvalidConfig(
                concat("invalid upstream_api_key_header_name: ", e.as_str()),
            ),
        ),
    };
    let auth = concat(
        settings.upstream_api_key_prefix.as_str(),
        settings.upstream_api_key.as_str(),
    );
    let value = match parse_header_value(auth.as_str()) {
        Ok(v) => v,
        Err(e) => return Err(
            ProxyError::InvalidConfig(
                concat("invalid upstream auth header value: ", e.as_str()),
            ),
        ),
    };
    insert_header(&mut headers, name, value);
    let ghost base = header_contents(headers);
    let ghost list = configured_headers(*settings);
    assert(list.take(0) =~= Seq::empty());
    let mut i: usize = 0;
    while i < settings.upstream_headers.len()
        invariant
            i <= list.len() < 6554,
            list == configured_headers(*settings),
            list.len() == settings.upstream_headers.spec_entries().len(),
            upstream_headers(*settings) == with_headers(base, list),
            header_contents(headers).dom().finite(),
            header_contents(headers).dom().len() <= i + 1,
            with_headers(base, list.take(i as int)) == Ok::<Map<Seq<char>, Seq<u8>>, Failure>(
                header_contents(headers),
            ),
        decreases list.len() - i,
    {
        let (key, text) = settings.upstream_headers.entry(i);
        proof {
            assert(list.take(i + 1).drop_last() =~= list.take(i as int));
            assert(list.take(i + 1).last() == (key@, text@));
        }
        let name = match parse_name(key.as_str()) {
            Ok(n) => n,
            Err(e) => {
                proof {
                    lemma_headers_failure(base, list, i + 1);
                }
                let head = concat(
                    concat("invalid upstream header `", key.as_str()).as_str(),
                    "`: ",
                );
                return Err(ProxyError::InvalidConfig(concat(head.as_str(), e.as_str())));
            },
        };
        let value = match parse_header_value(text.as_str()) {
            Ok(v) => v,
            Err(e) => {
                proof {
                    lemma_headers_failure(base, list, i + 1);
                }
                let head = concat(
                    concat("invalid upstream header value for `", key.as_str()).as_str(),
                    "`: ",
                );
                return Err(ProxyError::InvalidConfig(concat(head.as_str(), e.as_str())));
            },
        };
        insert_header(&mut headers, name, value);
        i += 1;
    }
    assert(list.take(i as int) =~= list);
    Ok(headers)
}

/// The headers of probes.
pub fn build_probe_headers(settings: &Settings) -> (headers: http::HeaderMap<http::HeaderValue>)
    requires
        settings.upstream_headers.spec_entries().len() < 6554,
    ensures
        header_contents(headers) == probe_headers(*settings),
{
    let mut headers = no_headers();
    let name = match parse_name(settings.upstream_api_key_header_name.as_str()) {
        Ok(n) => Some(n),
        Err(_) => {
            proof {
                lemma_authorization();
            }
            match parse_name("authorization") {
                Ok(n) => Some(n),
                Err(_) => None,
            }
        },
    };
    let auth = concat(
        settings.upstream_api_key_prefix.as_str(),
        settings.upstream_api_key.as_str(),
    );
    if let (Some(name), Ok(value)) = (name, parse_header_value(auth.as_str())) {
        insert_header(&mut headers, name, value);
    }
    let ghost base = header_contents(headers);
    let ghost list = configured_headers(*settings);
    assert(list.take(0) =~= Seq::empty());
    let mut i: usize = 0;
    while i < settings.upstream_headers.len()
        invariant
            i <= list.len() < 6554,
            list == configured_headers(*settings),
            list.len() == settings.upstream_headers.spec_entries().len(),
            header_contents(headers).dom().finite(),
            header_contents(headers).dom().len() <= i + 1,
            header_contents(headers) == with_sendable_headers(base, list.take(i as int)),
        decreases list.len() - i,
    {
        let (key, text) = settings.upstream_headers.entry(i);
        proof {
            assert(list.take(i + 1).drop_last() =~= list.take(i as int));
            assert(list.take(i + 1).last() == (key@, text@));
        }
        if let (Ok(name), Ok(value)) = (
            parse_name(key.as_str()),
            parse_header_value(text.as_str()),
        ) {
            insert_header(&mut headers, name, value);
        }
        i += 1;
    }
    assert(list.take(i as int) =~= list);
    headers
}

proof fn lemma_authorization()
    ensures
        is_header_name("authorization"@),
        lower_name("authorization"@) == "authorization"@,
{
    reveal_strlit("authorization");
    let s = "authorization"@;
    assert(s =~= seq!['a', 'u', 't', 'h', 'o', 'r', 'i', 'z', 'a', 't', 'i', 'o', 'n']);
    assert(lower_name(s) =~= s);
}

/// Whether a client may use the proxy: it shows the proxy's key as its bearer token.
pub open spec fn is_authorized(key: Seq<char>, headers: Map<Seq<char>, Seq<u8>>) -> bool {
    match headers.get("authorization"@) {
        None => false,
        Some(bytes) => is_visible(bytes) && has_prefix(ascii_text(bytes), "Bearer "@)
            && ascii_text(bytes).skip("Bearer "@.len() as int) == key,
    }
}

/// Checks whether a client may use the proxy.
pub fn authorize(settings: &Settings, headers: &http::HeaderMap<http::HeaderValue>) -> (r: Result<
    (),
    ProxyError,
>)
    ensures
        r is Ok <==> is_authorized(settings.proxy_api_key@, header_contents(*headers)),
        r matches Err(e) ==> e@ == Failure::Unauthorized,
{
    proof {
        lemma_authorization();
    }
    let value = match first_header(headers, "authorization") {
        Some(v) => v,
        None => return Err(ProxyError::Unauthorized),
    };
    let text = match value_text(value) {
        Some(t) => t,
        None => return Err(ProxyError::Unauthorized),
    };
    let token = match strip_prefix(text.as_str(), "Bearer ") {
        Some(t) => t,
        None => return Err(ProxyError::Unauthorized),
    };
    if same_text(token.as_str(), settings.proxy_api_key.as_str()) {
        Ok(())
    } else {
        Err(ProxyError::Unauthorized)
    }
}

/// A client is let in if and only if it shows the proxy's key, and nothing but the key,
/// as its bearer token.
pub proof fn law_the_key_lets_clients_in(key: Seq<char>, headers: Map<Seq<char>, Seq<u8>>)
    ensures
        is_authorized(key, headers) <==> headers.contains_key("authorization"@) && is_visible(
            headers["authorization"@],
        ) && ascii_text(headers["authorization"@]) == "Bearer "@ + key,
{
    if headers.contains_key("authorization"@) {
        let text = ascii_text(headers["authorization"@]);
        let n = "Bearer "@.len() as int;
        if has_prefix(text, "Bearer "@) && text.skip(n) == key {
            assert(text =~= text.take(n) + text.skip(n));
        }
        if text == "Bearer "@ + key {
            assert(text.take(n) =~= "Bearer "@);
            assert(text.skip(n) =~= key);
        }
    }
}

proof fn lemma_listed_headers(base: Map<Seq<char>, Seq<u8>>, list: Seq<(Seq<char>, Seq<char>)>)
    ensures
        with_headers(base, list) is Ok <==> forall|i: int|
            0 <= i < list.len() ==> is_header_name((#[trigger] list[i]).0) && is_header_value(
                encode_utf8(list[i].1),
            ),
        with_headers(base, list) matches Err(e) ==> e is InvalidConfig,
        with_headers(base, list) matches Ok(m) ==> {
            &&& with_sendable_headers(base, list) == m
            &&& forall|i: int|
                0 <= i < list.len() && (forall|j: int|
                    i < j < list.len() ==> lower_name((#[trigger] list[j]).0) != lower_name(
                        list[i].0,
                    )) ==> m.get(lower_name((#[trigger] list[i]).0)) == Some(
                    encode_utf8(list[i].1),
                )
            &&& forall|name: Seq<char>|
                (forall|j: int|
                    0 <= j < list.len() ==> lower_name((#[trigger] list[j]).0) != name)
                    ==> #[trigger] m.get(name) == base.get(name)
        },
    decreases list.len(),
{
    if list.len() > 0 {
        let n = list.len() - 1;
        let front = list.drop_last();
        lemma_listed_headers(base, front);
        assert(forall|i: int| 0 <= i < n ==> front[i] == list[i]);
        assert(list[n] == list.last());
        if with_headers(base, list) is Ok {
            assert forall|i: int| 0 <= i < list.len() implies is_header_name(
                (#[trigger] list[i]).0,
            ) && is_header_value(encode_utf8(list[i].1)) by {
                if i < n {
                    assert(is_header_name(front[i].0));
                }
            }
            let m = with_headers(base, list)->Ok_0;
            let earlier = with_headers(base, front)->Ok_0;
            let last = lower_name(list.last().0);
            assert forall|i: int|
                0 <= i < list.len() && (forall|j: int|
                    i < j < list.len() ==> lower_name((#[trigger] list[j]).0) != lower_name(
                        list[i].0,
                    )) implies m.get(lower_name((#[trigger] list[i]).0)) == Some(
                encode_utf8(list[i].1),
            ) by {
                if i < n {
                    assert(lower_name(list[n].0) != lower_name(list[i].0));
                    assert forall|j: int| i < j < front.len() implies lower_name(
                        (#[trigger] front[j]).0,
                    ) != lower_name(front[i].0) by {
                        assert(lower_name(list[j].0) != lower_name(list[i].0));
                    }
                    assert(earlier.get(lower_name(front[i].0)) == Some(encode_utf8(front[i].1)));
                }
            }
            assert forall|name: Seq<char>|
                (forall|j: int|
                    0 <= j < list.len() ==> lower_name((#[trigger] list[j]).0) != name)
                    implies #[trigger] m.get(name) == base.get(name) by {
                assert(lower_name(list[n].0) != name);
                assert forall|j: int| 0 <= j < front.len() implies lower_name(
                    (#[trigger] front[j]).0,
                ) != name by {
                    assert(lower_name(list[j].0) != name);
                }
                assert(earlier.get(name) == base.get(name));
            }
        } else {
            if forall|i: int|
                0 <= i < list.len() ==> is_header_name((#[trigger] list[i]).0) && is_header_value(
                    encode_utf8(list[i].1),
                ) {
                assert(is_header_name(list[n].0));
                assert forall|i: int| 0 <= i < front.len() implies is_header_name(
                    (#[trigger] front[i]).0,
                ) && is_header_value(encode_utf8(front[i].1)) by {
                    assert(is_header_name(list[i].0));
                }
            }
        }
    }
}

/// Where all headers can be sent, each is sent with its value: the key under its name,
/// behind its prefix, and those that are configured. Of two with one name the later is
/// sent, a configured one in place of the key. Probes are sent with the same headers. A
/// header that cannot be sent is refused.
pub proof fn law_headers_are_sent_as_configured(settings: Settings, i: int)
    ensures
        ({
            let key_name = settings.upstream_api_key_header_name@;
            let key = settings.upstream_api_key_prefix@ + settings.upstream_api_key@;
            let list = configured_headers(settings);
            &&& upstream_headers(settings) is Ok <==> is_header_name(key_name) && is_header_value(
                encode_utf8(key),
            ) && (forall|k: int|
                0 <= k < list.len() ==> is_header_name((#[trigger] list[k]).0) && is_header_value(
                    encode_utf8(list[k].1),
                ))
            &&& upstream_headers(settings) matches Err(e) ==> e is InvalidConfig
            &&& upstream_headers(settings) matches Ok(headers) ==> {
                &&& probe_headers(settings) == headers
                &&& 0 <= i < list.len() && (forall|j: int|
                    i < j < list.len() ==> lower_name((#[trigger] list[j]).0) != lower_name(
                        list[i].0,
                    )) ==> headers.get(lower_name(list[i].0)) == Some(encode_utf8(list[i].1))
                &&& (forall|j: int|
                    0 <= j < list.len() ==> lower_name((#[trigger] list[j]).0) != lower_name(
                        key_name,
                    )) ==> headers.get(lower_name(key_name)) == Some(encode_utf8(key))
            }
        }),
{
    let base = with_header(
        Map::empty(),
        settings.upstream_api_key_header_name@,
        auth_value(settings),
    );
    lemma_listed_headers(base, configured_headers(settings));
    if let Ok(headers) = upstream_headers(settings) {
        let list = configured_headers(settings);
        if forall|j: int|
            0 <= j < list.len() ==> lower_name((#[trigger] list[j]).0) != lower_name(
                settings.upstream_api_key_header_name@,
            ) {
            assert(headers.get(lower_name(settings.upstream_api_key_header_name@)) == base.get(
                lower_name(settings.upstream_api_key_header_name@),
            ));
        }
    }
}

/// A probe leaves out what cannot be sent: it is sent with the key alone where no header
/// is configured, under the usual name where the configured name cannot be sent, and
/// without the key where that cannot be sent.
pub proof fn law_probes_leave_out_what_cannot_be_sent(settings: Settings)
    requires
        configured_headers(settings).len() == 0,
    ensures
        ({
            let key_name = settings.upstream_api_key_header_name@;
            let key = encode_utf8(settings.upstream_api_key_prefix@ + settings.upstream_api_key@);
            let headers = probe_headers(settings);
            &&& is_header_value(key) && is_header_name(key_name) ==> headers.get(
                lower_name(key_name),
            ) == Some(key)
            &&& is_header_value(key) && !is_header_name(key_name) ==> headers.get(
                "authorization"@,
            ) == Some(key)
            &&& !is_header_value(key) ==> headers == Map::<Seq<char>, Seq<u8>>::empty()
        }),
{
    lemma_authorization();
}

/// A header that cannot be sent makes no difference to a probe, and one that can be sent
/// is sent in place of those before it with its name.
pub proof fn law_sendable_headers_are_sent(
    base: Map<Seq<char>, Seq<u8>>,
    list: Seq<(Seq<char>, Seq<char>)>,
    name: Seq<char>,
    value: Seq<char>,
)
    ensures
        ({
            let before = with_sendable_headers(base, list);
            let after = with_sendable_headers(base, list.push((name, value)));
            if is_header_name(name) && is_header_value(encode_utf8(value)) {
                after == before.insert(lower_name(name), encode_utf8(value))
            } else {
                after == before
            }
        }),
{
    assert(list.push((name, value)).drop_last() =~= list);
}

} // verus!
