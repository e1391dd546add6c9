//! Display names: which piece of text stands for a chain.  A chain is
//! named after its first certificate when that yields a name — a
//! non-`www.` DNS subject-alternative name is preferred, then the first
//! subject-alternative-name entry's DNS name (the common name steps in
//! when that entry has none), then the last line of the subject common
//! name — falling back to its request's common name, and finally to an
//! explicit unknown sentinel.  Printing itself is the caller's business.

use vstd::prelude::*;

use crate::artifact::{CertificateFile, CertificateRequestFile};
use crate::chain::Chain;
use crate::pem::{opt_string_view, san_entries_view};

verus! {

/// The text with one trailing line terminator (`\n` or `\r\n`) removed.
pub open spec fn strip_line_terminator(s: Seq<char>) -> Seq<char> {
    if s.len() >= 2 && s[s.len() - 2] == '\r' && s[s.len() - 1] == '\n' {
        s.take(s.len() - 2)
    } else if s.len() >= 1 && s[s.len() - 1] == '\n' {
        s.take(s.len() - 1)
    } else {
        s
    }
}

/// The suffix of the text after its last newline.
pub open spec fn last_line_suffix(s: Seq<char>) -> Seq<char>
    decreases s.len(),
{
    if s.len() == 0 {
        s
    } else if s[s.len() - 1] == '\n' {
        Seq::empty()
    } else {
        last_line_suffix(s.drop_last()).push(s[s.len() - 1])
    }
}

/// The last line of a text: what remains of the final line once its
/// terminator is stripped, or nothing when the text is empty.
pub open spec fn last_line(s: Seq<char>) -> Option<Seq<char>> {
    if s.len() == 0 {
        None
    } else {
        Some(last_line_suffix(strip_line_terminator(s)))
    }
}

/// The suffix of the text after the last newline, pinned down from a cut
/// point: everything at or after `start` is no newline, and `start` is
/// either the beginning or preceded by a newline.
proof fn lemma_last_line_suffix_at(t: Seq<char>, start: int)
    requires
        0 <= start <= t.len(),
        start == 0 || t[start - 1] == '\n',
        forall|i: int| start <= i < t.len() ==> t[i] != '\n',
    ensures
        last_line_suffix(t) == t.subrange(start, t.len() as int),
    decreases t.len(),
{
    if t.len() == 0 {
        assert(last_line_suffix(t) =~= t.subrange(0, 0));
    } else if start == t.len() {
        assert(t[t.len() - 1] == '\n');
        assert(last_line_suffix(t) =~= t.subrange(start, t.len() as int));
    } else {
        assert(t[t.len() - 1] != '\n');
        lemma_last_line_suffix_at(t.drop_last(), start);
        assert(t.drop_last().subrange(start, t.len() - 1).push(t[t.len() - 1]) =~= t.subrange(
            start,
            t.len() as int,
        ));
    }
}

/// The last line of the text, computed left to right over its
/// characters.
pub fn last_line_of(s: &str) -> (r: Option<String>)
    ensures
        opt_string_view(r) == last_line(s@),
{
    let len = s.unicode_len();
    if len == 0 {
        return None;
    }
    let mut end = len;
    if s.get_char(len - 1) == '\n' {
        if len >= 2 && s.get_char(len - 2) == '\r' {
            end = len - 2;
        } else {
            end = len - 1;
        }
    }
    proof {
        assert(s@.take(end as int) == strip_line_terminator(s@));
    }
    let mut start = end;
    while start > 0 && s.get_char(start - 1) != '\n'
        invariant
            start <= end,
            end <= len,
            len == s@.len(),
            forall|i: int| start <= i < end ==> s@[i] != '\n',
        decreases start,
    {
        start -= 1;
    }
    let line = s.substring_char(start, end);
    proof {
        let t = s@.take(end as int);
        assert forall|i: int| start <= i < t.len() implies t[i] != '\n' by {
            assert(t[i] == s@[i]);
        }
        if start > 0 {
            assert(t[start - 1] == s@[start - 1]);
        }
        lemma_last_line_suffix_at(t, start as int);
        assert(t.subrange(start as int, t.len() as int) =~= s@.subrange(start as int, end as int));
    }
    Some(line.to_owned())
}

/// A name that begins with `www.`.
pub open spec fn starts_with_www(s: Seq<char>) -> bool {
    s.len() >= 4 && s[0] == 'w' && s[1] == 'w' && s[2] == 'w' && s[3] == '.'
}

/// The first subject-alternative-name entry at or after `i` that has a
/// DNS name not beginning with `www.`.
pub open spec fn first_dns_non_www_from(entries: Seq<Option<Seq<char>>>, i: int) -> Option<int>
    decreases entries.len() - i,
    when 0 <= i <= entries.len()
{
    if i == entries.len() {
        None
    } else if entries[i] matches Some(name) && !starts_with_www(name) {
        Some(i)
    } else {
        first_dns_non_www_from(entries, i + 1)
    }
}

/// The display name a request yields: the last line of its subject
/// common name, if any.
pub open spec fn spec_request_display_name(request: CertificateRequestFile) -> Option<Seq<char>> {
    match request.subject_common_name {
        Some(cn) => last_line(cn@),
        None => None,
    }
}

/// The display name a certificate yields: the DNS name of the first
/// subject-alternative-name entry whose DNS name does not begin with
/// `www.`, else the first entry's DNS name; when there are no entries,
/// or the first entry has no DNS name, the last line of the subject
/// common name, if any.
pub open spec fn spec_certificate_display_name(certificate: CertificateFile) -> Option<Seq<char>> {
    let entries = san_entries_view(certificate.subject_alt_name_entries@);
    if entries.len() > 0 && first_dns_non_www_from(entries, 0) is Some {
        entries[first_dns_non_www_from(entries, 0)->Some_0]
    } else if entries.len() > 0 && entries[0] is Some {
        entries[0]
    } else {
        match certificate.subject_common_name {
            Some(cn) => last_line(cn@),
            None => None,
        }
    }
}

/// The display name of a chain: its first certificate's name, else its
/// request's name, else the unknown sentinel.
pub open spec fn spec_display_name(chain: Chain) -> Seq<char> {
    if chain.certificates@.len() > 0 && spec_certificate_display_name(chain.certificates@[0])
        is Some {
        spec_certificate_display_name(chain.certificates@[0])->Some_0
    } else if chain.request is Some && spec_request_display_name(chain.request->Some_0) is Some {
        spec_request_display_name(chain.request->Some_0)->Some_0
    } else {
        "(unknown)"@
    }
}

/// Whether the name begins with `www.`.
fn name_starts_with_www(s: &String) -> (r: bool)
    ensures
        r == starts_with_www(s@),
{
    let st = s.as_str();
    if st.unicode_len() < 4 {
        return false;
    }
    st.get_char(0) == 'w' && st.get_char(1) == 'w' && st.get_char(2) == 'w' && st.get_char(3)
        == '.'
}

/// Get display name from a certificate signing request.
pub fn get_display_name_from_request(request: &CertificateRequestFile) -> (r: Option<String>)
    ensures
        opt_string_view(r) == spec_request_display_name(*request),
{
    match &request.subject_common_name {
        Some(cn) => last_line_of(cn.as_str()),
        None => None,
    }
}

/// Get display name from a certificate.
pub fn get_display_name_from_certificate(certificate: &CertificateFile) -> (r: Option<String>)
    ensures
        opt_string_view(r) == spec_certificate_display_name(*certificate),
{
    let n = certificate.subject_alt_name_entries.len();
    let ghost ev = san_entries_view(certificate.subject_alt_name_entries@);
    if n > 0 {
        // Prefer non-www values.
        let mut i: usize = 0;
        while i < n
            invariant
                n == ev.len(),
                n == certificate.subject_alt_name_entries@.len(),
                ev == san_entries_view(certificate.subject_alt_name_entries@),
                i <= n,
                first_dns_non_www_from(ev, 0) == first_dns_non_www_from(ev, i as int),
            decreases n - i,
        {
            proof {
                assert(ev[i as int] == opt_string_view(
                    certificate.subject_alt_name_entries@[i as int],
                ));
            }
            match &certificate.subject_alt_name_entries[i] {
                Some(name) => {
                    if !name_starts_with_www(name) {
                        proof {
                            assert(first_dns_non_www_from(ev, i as int) == Some(i as int));
                        }
                        return Some(name.clone());
                    }
                    proof {
                        assert(first_dns_non_www_from(ev, i as int) == first_dns_non_www_from(
                            ev,
                            i as int + 1,
                        ));
                    }
                },
                None => {
                    proof {
                        assert(first_dns_non_www_from(ev, i as int) == first_dns_non_www_from(
                            ev,
                            i as int + 1,
                        ));
                    }
                },
            }
            i += 1;
        }
        proof {
            assert(first_dns_non_www_from(ev, n as int) is None);
            assert(ev[0] == opt_string_view(certificate.subject_alt_name_entries@[0]));
        }
        // Fall back to the first entry's DNS name, if it has one.
        match &certificate.subject_alt_name_entries[0] {
            Some(name) => {
                return Some(name.clone());
            },
            None => {},
        }
    }
    // Fall back to common name value.
    match &certificate.subject_common_name {
        Some(cn) => last_line_of(cn.as_str()),
        None => None,
    }
}

/// Get display name for a chain by checking multiple sources.
pub fn get_display_name(chain: &Chain) -> (r: String)
    ensures
        r@ == spec_display_name(*chain),
{
    if chain.certificates.len() > 0 {
        if let Some(name) = get_display_name_from_certificate(&chain.certificates[0]) {
            return name;
        }
    }
    if let Some(request) = &chain.request {
        if let Some(name) = get_display_name_from_request(request) {
            return name;
        }
    }
    "(unknown)".to_owned()
}

} // verus!
