//! Admission of one-shot media URLs: only remote HTTP(S) resources, so the
//! control API cannot be used to read local files or other ffmpeg protocols.

use vstd::prelude::*;
use vstd::string::StrSliceExecFns;
use crate::text::{
    trim, trim_spec, is_white_space, is_control, ascii_lower, char_is_control, char_is_whitespace,
    starts_with_chars_ignore_ascii_case,
};

verus! {

pub open spec fn http_prefix() -> Seq<char> {
    seq!['h', 't', 't', 'p', ':', '/', '/']
}

pub open spec fn https_prefix() -> Seq<char> {
    seq!['h', 't', 't', 'p', 's', ':', '/', '/']
}

/// Whether `s`, ASCII-lowercased, begins with `p`.
pub open spec fn lower_starts_with(s: Seq<char>, p: Seq<char>) -> bool {
    p.len() <= s.len() && s.subrange(0, p.len() as int).map_values(|c: char| ascii_lower(c)) == p
}

/// A media URL is accepted when, trimmed, it is non-empty, at most 4096
/// bytes, free of white space and control characters, and starts with
/// `http://` or `https://` in any ASCII case.
pub open spec fn media_url_ok(url: Seq<char>) -> bool {
    let t = trim_spec(url);
    &&& t.len() > 0
    &&& vstd::utf8::encode_utf8(t).len() <= 4096
    &&& forall|i: int| 0 <= i < t.len() ==> !is_control(#[trigger] t[i]) && !is_white_space(t[i])
    &&& (lower_starts_with(t, http_prefix()) || lower_starts_with(t, https_prefix()))
}

/// Every character of `t` is neither a control character nor white space.
pub open spec fn all_plain(t: Seq<char>) -> bool {
    forall|i: int| 0 <= i < t.len() ==> !is_control(#[trigger] t[i]) && !is_white_space(t[i])
}

/// Checks a media URL (see [`media_url_ok`]); each refusal names the first
/// rule, in the order above, that the trimmed URL breaks.
pub fn validate_media_url(url: &str) -> (r: Result<(), String>)
    ensures
        r is Ok <==> media_url_ok(url@),
        ({
            let t = trim_spec(url@);
            let long = vstd::utf8::encode_utf8(t).len() > 4096;
            &&& t.len() == 0 ==> (r matches Err(m) && m@ == "url is required"@)
            &&& (t.len() > 0 && long) ==> (r matches Err(m) && m@ == "url is too long"@)
            &&& (t.len() > 0 && !long && !all_plain(t)) ==> (r matches Err(m)
                && m@ == "url must not contain whitespace or control characters"@)
            &&& (t.len() > 0 && !long && all_plain(t) && !media_url_ok(url@)) ==> (r matches Err(m)
                && m@ == "only http:// and https:// URLs are supported"@)
        }),
{
    let t = trim(url);
    let n = t.unicode_len();
    if n == 0 {
        return Err(String::from_str("url is required"));
    }
    if t.as_bytes().len() > 4096 {
        return Err(String::from_str("url is too long"));
    }
    let mut i: usize = 0;
    while i < n
        invariant
            n == t@.len(),
            n > 0,
            vstd::utf8::encode_utf8(t@).len() <= 4096,
            t@ == trim_spec(url@),
            0 <= i <= n,
            forall|j: int| 0 <= j < i ==> !is_control(#[trigger] t@[j]) && !is_white_space(t@[j]),
        decreases n - i,
    {
        let c = t.get_char(i);
        if char_is_control(c) || char_is_whitespace(c) {
            assert(is_control(t@[i as int]) || is_white_space(t@[i as int]));
            return Err(String::from_str("url must not contain whitespace or control characters"));
        }
        i = i + 1;
    }
    let http: [char; 7] = ['h', 't', 't', 'p', ':', '/', '/'];
    let https: [char; 8] = ['h', 't', 't', 'p', 's', ':', '/', '/'];
    assert(http@ == http_prefix());
    assert(https@ == https_prefix());
    if !(starts_with_chars_ignore_ascii_case(t, &http) || starts_with_chars_ignore_ascii_case(
        t,
        &https,
    )) {
        return Err(String::from_str("only http:// and https:// URLs are supported"));
    }
    Ok(())
}

} // verus!
