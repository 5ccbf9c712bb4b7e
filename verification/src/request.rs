//! What is sent to the video service and how its refusals are read:
//! request addresses, the fallback to alternate credentials, and the text
//! of a failure.

use vstd::prelude::*;
use vstd::string::*;
use crate::text::{
    chars_contain, chars_eq, chars_of, contains_sub, decimal, decimal_chars, opt_str, string_of,
    strs, trim, trim_chars,
};

verus! {

// ---------------------------------------------------------------------------
// Percent-encoding
// ---------------------------------------------------------------------------

/// The bytes that stand for themselves in a request address: ASCII letters
/// and digits, `-`, `.`, `_` and `~`.
pub open spec fn is_unreserved(b: u8) -> bool {
    (0x30 <= b <= 0x39) || (0x41 <= b <= 0x5A) || (0x61 <= b <= 0x7A) || b == 0x2D || b == 0x2E
        || b == 0x5F || b == 0x7E
}

/// The upper-case hexadecimal digit of a value below sixteen.
pub open spec fn hex_upper(d: u8) -> char {
    if d < 10 {
        (0x30 + d) as u8 as char
    } else {
        (0x41 + d - 10) as u8 as char
    }
}

/// Percent-encoding of a byte string: an unreserved byte stands for itself,
/// any other byte becomes `%` and its two upper-case hexadecimal digits.
pub open spec fn percent_encoded(bytes: Seq<u8>) -> Seq<char>
    decreases bytes.len(),
{
    if bytes.len() == 0 {
        Seq::empty()
    } else if is_unreserved(bytes.last()) {
        percent_encoded(bytes.drop_last()).push(bytes.last() as char)
    } else {
        percent_encoded(bytes.drop_last()) + seq![
            '%',
            hex_upper(bytes.last() / 16),
            hex_upper(bytes.last() % 16),
        ]
    }
}

/// Percent-encoding of a text: that of its UTF-8 bytes.
pub open spec fn url_encoded(s: Seq<char>) -> Seq<char> {
    percent_encoded(vstd::utf8::encode_utf8(s))
}

/// Calls `urlencoding::encode`, which percent-encodes every byte of the
/// UTF-8 form of `s` except ASCII letters, digits, `-`, `.`, `_` and `~`,
/// with upper-case hexadecimal digits.
#[verifier::external_body]
fn url_encode(s: &str) -> (r: String)
    ensures
        r@ == url_encoded(s@),
{
    urlencoding::encode(s).into_owned()
}

// ---------------------------------------------------------------------------
// Request addresses
// ---------------------------------------------------------------------------

/// `&key=value` for every parameter, values percent-encoded, in order.
pub open spec fn encoded_params(params: Seq<(&'static str, String)>) -> Seq<char>
    decreases params.len(),
{
    if params.len() == 0 {
        Seq::empty()
    } else {
        encoded_params(params.drop_last()) + seq!['&'] + params.last().0@ + seq!['=']
            + url_encoded(params.last().1@)
    }
}

/// The address of an id search, without the credential.
pub open spec fn search_address(params: Seq<(&'static str, String)>) -> Seq<char> {
    "https://www.googleapis.com/youtube/v3/search?part=snippet&type=video"@ + encoded_params(params)
}

/// The ids separated by commas.
pub open spec fn comma_list(ids: Seq<Seq<char>>) -> Seq<char> {
    crate::text::join(ids, seq![','])
}

/// The address of a detail lookup, without the credential.
pub open spec fn videos_address(ids: Seq<Seq<char>>) -> Seq<char> {
    "https://www.googleapis.com/youtube/v3/videos?part=snippet,contentDetails"@ + "&id="@
        + comma_list(ids)
}

/// The address of a channel metadata lookup, without the credential.
pub open spec fn channels_address(ids: Seq<Seq<char>>) -> Seq<char> {
    "https://www.googleapis.com/youtube/v3/channels?part=snippet"@ + "&id="@ + comma_list(ids)
}

/// An address completed by a credential, which is trimmed first.
pub open spec fn with_key(address: Seq<char>, key: Seq<char>) -> Seq<char> {
    address + "&key="@ + trim(key)
}

/// The address of an id search with the given parameters, without the
/// credential.
pub fn search_url(params: &[(&'static str, String)]) -> (r: String)
    ensures
        r@ == search_address(params@),
{
    let mut url = "https://www.googleapis.com/youtube/v3/search?part=snippet&type=video".to_owned();
    let ghost head = url@;
    let mut i: usize = 0;
    assert(params@.take(0) =~= Seq::<(&'static str, String)>::empty());
    assert(url@ =~= head + encoded_params(params@.take(0)));
    while i < params.len()
        invariant
            i <= params.len(),
            url@ == head + encoded_params(params@.take(i as int)),
        decreases params.len() - i,
    {
        proof {
            let next = params@.take(i + 1);
            assert(next.drop_last() =~= params@.take(i as int));
            assert(next.last() == params@[i as int]);
        }
        let ghost before = url@;
        url.push('&');
        url.append(params[i].0);
        url.push('=');
        let encoded = url_encode(params[i].1.as_str());
        url.append(encoded.as_str());
        assert(url@ =~= before + seq!['&'] + params@[i as int].0@ + seq!['='] + url_encoded(
            params@[i as int].1@,
        ));
        assert(url@ =~= head + encoded_params(params@.take(i + 1)));
        i += 1;
    }
    assert(params@.take(i as int) =~= params@);
    url
}

/// The ids separated by commas.
pub fn join_ids(ids: &[String]) -> (r: String)
    ensures
        r@ == comma_list(strs(ids@)),
{
    let ghost all = strs(ids@);
    let mut r = String::new();
    let mut i: usize = 0;
    assert(all.take(0) =~= Seq::<Seq<char>>::empty());
    while i < ids.len()
        invariant
            i <= ids.len(),
            all == strs(ids@),
            r@ == comma_list(all.take(i as int)),
        decreases ids.len() - i,
    {
        proof {
            crate::text::lemma_join_push(all.take(i as int), seq![','], ids@[i as int]@);
            assert(all.take(i as int).push(ids@[i as int]@) =~= all.take(i + 1));
        }
        let ghost before = r@;
        if i > 0 {
            r.push(',');
        }
        r.append(ids[i].as_str());
        assert(r@ =~= if i > 0 {
            before + seq![','] + ids@[i as int]@
        } else {
            ids@[i as int]@
        });
        i += 1;
    }
    assert(all.take(i as int) =~= all);
    r
}

/// The address of a detail lookup for the given ids, without the credential.
pub fn videos_url(ids: &[String]) -> (r: String)
    ensures
        r@ == videos_address(strs(ids@)),
{
    let mut url = "https://www.googleapis.com/youtube/v3/videos?part=snippet,contentDetails".to_owned();
    url.append("&id=");
    let list = join_ids(ids);
    url.append(list.as_str());
    url
}

/// The address of a channel metadata lookup for the given ids, without the
/// credential.
pub fn channels_url(ids: &[String]) -> (r: String)
    ensures
        r@ == channels_address(strs(ids@)),
{
    let mut url = "https://www.googleapis.com/youtube/v3/channels?part=snippet".to_owned();
    url.append("&id=");
    let list = join_ids(ids);
    url.append(list.as_str());
    url
}

/// Completes an address by a credential.
pub fn url_with_key(address: &str, key: &str) -> (r: String)
    ensures
        r@ == with_key(address@, key@),
{
    let mut url = address.to_owned();
    url.append("&key=");
    let k = crate::text::trimmed(key);
    url.append(k.as_str());
    url
}

// ---------------------------------------------------------------------------
// Alternate credentials
// ---------------------------------------------------------------------------

/// The candidates that can stand in for `current`: each trimmed, without
/// the blank ones and without those equal to the trimmed `current`, in
/// order.
pub open spec fn usable_alternates(current: Seq<char>, candidates: Seq<Seq<char>>) -> Seq<
    Seq<char>,
>
    decreases candidates.len(),
{
    if candidates.len() == 0 {
        Seq::empty()
    } else {
        let rest = usable_alternates(current, candidates.drop_last());
        let t = trim(candidates.last());
        if t.len() == 0 || t == trim(current) {
            rest
        } else {
            rest.push(t)
        }
    }
}

/// The credentials to fall back on, in the order in which to try them.
pub fn alternate_keys(current: &str, candidates: &[String]) -> (r: Vec<String>)
    ensures
        strs(r@) == usable_alternates(current@, strs(candidates@)),
{
    let ghost all = strs(candidates@);
    let cur_raw = chars_of(current);
    let cur = trim_chars(&cur_raw);
    let mut r: Vec<String> = Vec::new();
    let mut i: usize = 0;
    assert(all.take(0) =~= Seq::<Seq<char>>::empty());
    assert(strs(r@) =~= Seq::<Seq<char>>::empty());
    while i < candidates.len()
        invariant
            i <= candidates.len(),
            all == strs(candidates@),
            cur@ == trim(current@),
            strs(r@) == usable_alternates(current@, all.take(i as int)),
        decreases candidates.len() - i,
    {
        proof {
            let next = all.take(i + 1);
            assert(next.drop_last() =~= all.take(i as int));
            assert(next.last() == candidates@[i as int]@);
        }
        let raw = chars_of(candidates[i].as_str());
        let t = trim_chars(&raw);
        if t.len() > 0 && !chars_eq(&t, &cur) {
            let ghost before = r@;
            r.push(string_of(&t));
            assert(strs(r@) =~= strs(before).push(t@));
        }
        i += 1;
    }
    assert(all.take(i as int) =~= all);
    r
}

/// A refusal that another credential may get past: status 403 with a reason
/// that names quota, daily limit, key validity, a forbidden request, a
/// blocked referrer or an API that is not enabled.
pub open spec fn key_issue(status: u16, reason: Seq<char>) -> bool {
    status == 403 && (contains_sub(reason, "quota"@) || contains_sub(reason, "dailyLimitExceeded"@)
        || contains_sub(reason, "keyInvalid"@) || contains_sub(reason, "forbidden"@)
        || contains_sub(reason, "ipRefererBlocked"@) || contains_sub(
        reason,
        "accessNotConfigured"@,
    ))
}

/// Whether a refusal is one that another credential may get past.
pub fn is_key_issue(status: u16, reason: &str) -> (r: bool)
    ensures
        r == key_issue(status, reason@),
{
    if status != 403 {
        return false;
    }
    let rs = chars_of(reason);
    chars_contain(&rs, &chars_of("quota")) || chars_contain(&rs, &chars_of("dailyLimitExceeded"))
        || chars_contain(&rs, &chars_of("keyInvalid")) || chars_contain(&rs, &chars_of("forbidden"))
        || chars_contain(&rs, &chars_of("ipRefererBlocked")) || chars_contain(
        &rs,
        &chars_of("accessNotConfigured"),
    )
}

/// A success status: 200 to 299.
pub open spec fn status_ok(status: u16) -> bool {
    200 <= status <= 299
}

/// Whether a status is a success status.
pub fn is_success(status: u16) -> (r: bool)
    ensures
        r == status_ok(status),
{
    status >= 200 && status <= 299
}

/// Whether the alternate credentials are to be read after the answer to an
/// attempt: only after the first attempt, and only where it was refused for
/// a key issue.
pub fn wants_alternates(attempt: usize, status: u16, reason: &str) -> (r: bool)
    ensures
        r == (attempt == 0 && !status_ok(status) && key_issue(status, reason@)),
{
    attempt == 0 && !is_success(status) && is_key_issue(status, reason)
}

/// What to do with an answer of the service.
#[derive(Clone, Copy, Debug, PartialEq, Eq, Structural)]
pub enum Verdict {
    /// The answer is the result.
    Accept,
    /// Ask again with the alternate credential of this index.
    Retry(usize),
    /// Fail with the text of this answer.
    GiveUp,
}

/// The verdict on the answer to attempt number `attempt`, where attempt 0
/// used the configured credential and attempt `n` the alternate `n - 1`. A
/// success is accepted. A first refusal leads to the alternates only if it
/// is a key issue; a refused alternate leads to the next one whatever the
/// reason. When no alternate is left, the run gives up.
pub open spec fn verdict(attempt: int, alternates: int, status: u16, reason: Seq<char>) -> Verdict {
    if status_ok(status) {
        Verdict::Accept
    } else if attempt == 0 {
        if key_issue(status, reason) && alternates > 0 {
            Verdict::Retry(0)
        } else {
            Verdict::GiveUp
        }
    } else if attempt < alternates {
        Verdict::Retry(attempt as usize)
    } else {
        Verdict::GiveUp
    }
}

/// Decides what to do with the answer to an attempt.
pub fn after_response(attempt: usize, alternates: usize, status: u16, reason: &str) -> (r: Verdict)
    ensures
        r == verdict(attempt as int, alternates as int, status, reason@),
        r matches Verdict::Retry(k) ==> k < alternates && k == attempt,
{
    if is_success(status) {
        Verdict::Accept
    } else if attempt == 0 {
        if is_key_issue(status, reason) && alternates > 0 {
            Verdict::Retry(0)
        } else {
            Verdict::GiveUp
        }
    } else if attempt < alternates {
        Verdict::Retry(attempt)
    } else {
        Verdict::GiveUp
    }
}

// ---------------------------------------------------------------------------
// The text of a failure
// ---------------------------------------------------------------------------

/// What a refusal says of itself, once its body has been read as an error
/// record: the message, the status word, and the reason of the first
/// detail.
#[derive(Debug)]
pub struct ApiError {
    pub message: String,
    pub status: Option<String>,
    pub reason: Option<String>,
}

/// Mathematical content of an [`ApiError`].
pub struct ApiErrorView {
    pub message: Seq<char>,
    pub status: Option<Seq<char>>,
    pub reason: Option<Seq<char>>,
}

impl View for ApiError {
    type V = ApiErrorView;

    open spec fn view(&self) -> ApiErrorView {
        ApiErrorView {
            message: self.message@,
            status: opt_str(self.status),
            reason: opt_str(self.reason),
        }
    }
}

/// The text of an optional string, empty where there is none.
pub open spec fn or_empty(o: Option<Seq<char>>) -> Seq<char> {
    match o {
        Some(s) => s,
        None => Seq::empty(),
    }
}

/// The reason that a refusal gives, empty where it gives none.
pub open spec fn refusal_reason(parsed: Option<ApiErrorView>) -> Seq<char> {
    match parsed {
        Some(e) => or_empty(e.reason),
        None => Seq::empty(),
    }
}

/// The text of a failed call: endpoint, HTTP status, then status word and
/// reason as far as the error record has them, then its message; for a body
/// that is no error record, the trimmed body itself.
pub open spec fn failure_text(
    endpoint: Seq<char>,
    status: u16,
    body: Seq<char>,
    parsed: Option<ApiErrorView>,
) -> Seq<char> {
    let head = "YouTube "@ + endpoint + " failed (HTTP "@ + decimal(status as nat);
    match parsed {
        Some(e) => {
            let reason = or_empty(e.reason);
            let word = or_empty(e.status);
            if reason.len() == 0 && word.len() == 0 {
                head + "): "@ + e.message
            } else if reason.len() == 0 {
                head + ", "@ + word + "): "@ + e.message
            } else {
                head + ", "@ + word + ", reason="@ + reason + "): "@ + e.message
            }
        },
        None => head + "): "@ + trim(body),
    }
}

/// The reason that a refusal gives, empty where it gives none.
pub fn error_reason(parsed: &Option<ApiError>) -> (r: String)
    ensures
        r@ == refusal_reason(
            match *parsed {
                Some(e) => Some(e@),
                None => None,
            },
        ),
{
    match parsed {
        Some(e) => match &e.reason {
            Some(reason) => reason.clone(),
            None => String::new(),
        },
        None => String::new(),
    }
}

/// The text of a failed call.
pub fn format_youtube_error(status: u16, body: &str, endpoint: &str, parsed: &Option<ApiError>) -> (r:
    String)
    ensures
        r@ == failure_text(
            endpoint@,
            status,
            body@,
            match *parsed {
                Some(e) => Some(e@),
                None => None,
            },
        ),
{
    let mut text = "YouTube ".to_owned();
    text.append(endpoint);
    text.append(" failed (HTTP ");
    let digits = decimal_chars(status as u128);
    let number = string_of(&digits);
    text.append(number.as_str());
    match parsed {
        Some(e) => {
            let reason_empty = match &e.reason {
                Some(reason) => reason.as_str().is_empty(),
                None => true,
            };
            let word_empty = match &e.status {
                Some(word) => word.as_str().is_empty(),
                None => true,
            };
            if !(reason_empty && word_empty) {
                text.append(", ");
                if let Some(word) = &e.status {
                    text.append(word.as_str());
                }
                if !reason_empty {
                    text.append(", reason=");
                    if let Some(reason) = &e.reason {
                        text.append(reason.as_str());
                    }
                }
            }
            text.append("): ");
            text.append(e.message.as_str());
            proof {
                let head = "YouTube "@ + endpoint@ + " failed (HTTP "@ + decimal(status as nat);
                let reason = or_empty(e@.reason);
                let word = or_empty(e@.status);
                if reason.len() == 0 && word.len() == 0 {
                    assert(text@ =~= head + "): "@ + e.message@);
                } else if reason.len() == 0 {
                    assert(text@ =~= head + ", "@ + word + "): "@ + e.message@);
                } else {
                    assert(text@ =~= head + ", "@ + word + ", reason="@ + reason + "): "@
                        + e.message@);
                }
            }
        },
        None => {
            text.append("): ");
            let t = crate::text::trimmed(body);
            text.append(t.as_str());
        },
    }
    text
}

} // verus!
