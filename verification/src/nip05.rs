//! NIP-05 identifiers: which addresses are looked up, where, and what answer
//! confirms a key.

use vstd::prelude::*;

use crate::media::lowered_exec;
use crate::present::eq_ignore_ascii_case;
use crate::text::{chars_of, find_exec, find_from, push_all, push_range, same_chars, string_of};

verus! {

/// An ASCII letter or digit.
pub open spec fn ascii_alphanumeric(c: char) -> bool {
    ('a' <= c && c <= 'z') || ('A' <= c && c <= 'Z') || ('0' <= c && c <= '9')
}

/// A character allowed in the domain of an address.
pub open spec fn domain_char(c: char) -> bool {
    ascii_alphanumeric(c) || c == '-' || c == '.'
}

/// A character allowed in the name of an address.
pub open spec fn name_char(c: char) -> bool {
    ascii_alphanumeric(c) || c == '_' || c == '-' || c == '.'
}

/// The name and domain of `address`, split at its first `@`, when both are
/// well formed: a non-empty name of letters, digits, `_`, `-` and `.`, and a
/// non-empty domain of letters, digits, `-` and `.` that neither starts nor
/// ends with `.` (so holds no second `@`).
pub open spec fn address_parts(address: Seq<char>) -> Option<(Seq<char>, Seq<char>)> {
    match find_from(address, seq!['@'], 0) {
        None => None,
        Some(at) => {
            let name = address.subrange(0, at);
            let domain = address.subrange(at + 1, address.len() as int);
            if name.len() > 0 && domain.len() > 0 && (forall|i: int| 0 <= i < name.len() ==> name_char(#[trigger] name[i]))
                && (forall|i: int| 0 <= i < domain.len() ==> domain_char(#[trigger] domain[i])) && domain[0] != '.'
                && domain.last() != '.' {
                Some((name, domain))
            } else {
                None
            }
        },
    }
}

/// The document that lists the names of a domain:
/// `https://{domain}/.well-known/nostr.json?name={name}`.
pub open spec fn lookup_url(name: Seq<char>, domain: Seq<char>) -> Seq<char> {
    "https://"@ + domain + "/.well-known/nostr.json?name="@ + name
}

/// Whether each character of `s` satisfies `name_char` (or `domain_char`).
fn all_chars(s: &Vec<char>, domain: bool) -> (r: bool)
    ensures
        r == if domain {
            forall|i: int| 0 <= i < s.len() ==> domain_char(#[trigger] s@[i])
        } else {
            forall|i: int| 0 <= i < s.len() ==> name_char(#[trigger] s@[i])
        },
{
    let mut i: usize = 0;
    while i < s.len()
        invariant
            i <= s.len(),
            domain ==> forall|j: int| 0 <= j < i ==> domain_char(#[trigger] s@[j]),
            !domain ==> forall|j: int| 0 <= j < i ==> name_char(#[trigger] s@[j]),
        decreases s.len() - i,
    {
        let c = s[i];
        let alnum = ('a' <= c && c <= 'z') || ('A' <= c && c <= 'Z') || ('0' <= c && c <= '9');
        let ok = if domain {
            alnum || c == '-' || c == '.'
        } else {
            alnum || c == '_' || c == '-' || c == '.'
        };
        if !ok {
            return false;
        }
        i = i + 1;
    }
    true
}

/// The name to look up and the document that lists it, for a well-formed
/// address; `None` for an address that cannot be verified.
pub fn nip05_lookup(address: &str) -> (r: Option<(String, String)>)
    ensures
        match address_parts(address@) {
            Some((name, domain)) => r matches Some(p) && p.0@ == name && p.1@ == lookup_url(name, domain),
            None => r is None,
        },
{
    let c = chars_of(address);
    let at_sign: Vec<char> = vec!['@'];
    assert(at_sign@ =~= seq!['@']);
    let at = match find_exec(&c, &at_sign, 0) {
        Some(at) => at,
        None => {
            return None;
        },
    };
    proof {
        crate::text::lemma_find_from(c@, seq!['@'], 0);
    }
    let mut name: Vec<char> = Vec::new();
    push_range(&mut name, &c, 0, at);
    let mut domain: Vec<char> = Vec::new();
    push_range(&mut domain, &c, at + 1, c.len());
    assert(name@ =~= c@.subrange(0, at as int));
    assert(domain@ =~= c@.subrange(at + 1, c.len() as int));
    if name.len() == 0 || domain.len() == 0 || !all_chars(&name, false) || !all_chars(&domain, true)
        || domain[0] == '.' || domain[domain.len() - 1] == '.' {
        return None;
    }
    let mut url = chars_of("https://");
    push_all(&mut url, &domain);
    push_all(&mut url, &chars_of("/.well-known/nostr.json?name="));
    push_all(&mut url, &name);
    Some((string_of(&name), string_of(&url)))
}

/// Whether the key listed for the name (if any) is `pubkey`, ignoring ASCII
/// case.
pub fn nip05_confirms(listed: Option<&str>, pubkey: &str) -> (r: bool)
    ensures
        r == match listed {
            Some(value) => eq_ignore_ascii_case(value@, pubkey@),
            None => false,
        },
{
    match listed {
        Some(value) => {
            let a = lowered_exec(&chars_of(value));
            let b = lowered_exec(&chars_of(pubkey));
            same_chars(&a, &b)
        },
        None => false,
    }
}

} // verus!
