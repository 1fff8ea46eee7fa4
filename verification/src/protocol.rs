//! The lookup protocols: what is asked of the resolver, and what its reply
//! comes to.
//!
//! The resolver itself is not here. Each protocol is a pair: a function that
//! prepares the question, and one that turns the resolver's reply, handed
//! over as plain values in the order the resolver gave them, into the
//! lookup's result.

use vstd::prelude::*;
use crate::address::{validate_ipv4, Ipv4Address};
use crate::error::{LookupError, LookupKind};
use crate::record_kind::{is_kind_name, names_kind, parse_record_type, RecordKind};
use crate::text::{chars_of, string_of, strip_root_dot, trim_chars, trimmed, without_root_dot};

verus! {

/// One address in a resolver's reply.
#[derive(Clone, Copy, Debug, PartialEq, Eq, Structural)]
pub enum IpAnswer {
    /// An IPv4 address.
    V4(Ipv4Address),
    /// An address of another family, which the lookups pass over.
    Other,
}

/// The texts of a sequence of strings.
pub open spec fn text_views(v: Seq<String>) -> Seq<Seq<char>> {
    Seq::new(v.len(), |i: int| v[i]@)
}

/// The dotted-decimal texts of the IPv4 addresses among `answers`, in the
/// order of `answers`.
pub open spec fn ipv4_texts(answers: Seq<IpAnswer>) -> Seq<Seq<char>>
    decreases answers.len(),
{
    if answers.len() == 0 {
        Seq::empty()
    } else {
        let before = ipv4_texts(answers.drop_last());
        match answers.last() {
            IpAnswer::V4(addr) => before.push(addr.text()),
            IpAnswer::Other => before,
        }
    }
}

/// The IPv4 texts of a prefix of the answers are a prefix of the IPv4 texts
/// of them all.
proof fn lemma_ipv4_texts_prefix(answers: Seq<IpAnswer>, k: int)
    requires
        0 <= k <= answers.len(),
    ensures
        ipv4_texts(answers.take(k)).len() <= ipv4_texts(answers).len(),
        forall|i: int|
            0 <= i < ipv4_texts(answers.take(k)).len() ==> ipv4_texts(answers.take(k))[i]
                == #[trigger] ipv4_texts(answers)[i],
    decreases answers.len() - k,
{
    if k < answers.len() {
        assert(answers.drop_last().take(k) =~= answers.take(k));
        lemma_ipv4_texts_prefix(answers.drop_last(), k);
    } else {
        assert(answers.take(k) =~= answers);
    }
}

/// The first IPv4 address among `answers`.
pub fn first_ipv4(answers: &Vec<IpAnswer>) -> (r: Option<Ipv4Address>)
    ensures
        match r {
            Some(addr) => ipv4_texts(answers@).len() > 0 && ipv4_texts(answers@)[0]
                == addr.text(),
            None => ipv4_texts(answers@).len() == 0,
        },
{
    let mut i: usize = 0;
    while i < answers.len()
        invariant
            i <= answers.len(),
            ipv4_texts(answers@.take(i as int)).len() == 0,
        decreases answers.len() - i,
    {
        proof {
            assert(answers@.take(i + 1).drop_last() =~= answers@.take(i as int));
        }
        if let IpAnswer::V4(addr) = answers[i] {
            proof {
                let upto = answers@.take(i + 1);
                assert(upto.last() == answers@[i as int]);
                assert(ipv4_texts(upto) =~= seq![addr.text()]);
                lemma_ipv4_texts_prefix(answers@, i + 1);
                assert(ipv4_texts(answers@)[0] == ipv4_texts(upto)[0]);
            }
            return Some(addr);
        }
        i += 1;
    }
    proof {
        assert(answers@.take(answers.len() as int) =~= answers@);
    }
    None
}

/// What a reverse lookup asks the resolver: the address that `ip_str`
/// writes.
pub fn reverse_dns_query(ip_str: &str) -> (r: Result<Ipv4Address, LookupError>)
    ensures
        match r {
            Ok(addr) => trimmed(ip_str@) == addr.text(),
            Err(LookupError::InvalidAddress(t)) => !crate::address::is_ipv4_text(
                trimmed(ip_str@),
            ) && t@ == ip_str@,
            Err(_) => false,
        },
{
    validate_ipv4(ip_str)
}

/// What a forward lookup asks the resolver: the host name without the
/// whitespace around it.
pub fn dns_query(hostname: &str) -> (r: String)
    ensures
        r@ == trimmed(hostname@),
{
    let given = chars_of(hostname);
    string_of(&trim_chars(&given))
}

/// What a forward lookup asks the resolver.
#[derive(Debug, PartialEq, Eq)]
pub enum ForwardQuery {
    /// The addresses of a host.
    Addresses(String),
    /// The records of one kind of a host.
    Records(String, RecordKind),
}

/// What a forward lookup asks the resolver: the addresses of the host where
/// no record kind is named, the records of that kind where one is. The host
/// name is taken without the whitespace around it.
pub fn forward_query(hostname: &str, kind: Option<&str>) -> (r: Result<ForwardQuery, LookupError>)
    ensures
        match kind {
            None => r matches Ok(ForwardQuery::Addresses(host)) && host@ == trimmed(hostname@),
            Some(text) => match r {
                Ok(ForwardQuery::Records(host, k)) => host@ == trimmed(hostname@) && names_kind(
                    text@,
                    k,
                ),
                Ok(ForwardQuery::Addresses(_)) => false,
                Err(LookupError::UnsupportedRecordType(t)) => !is_kind_name(text@) && t@
                    == text@,
                Err(_) => false,
            },
        },
{
    match kind {
        None => Ok(ForwardQuery::Addresses(dns_query(hostname))),
        Some(text) => match parse_record_type(text) {
            Ok(k) => Ok(ForwardQuery::Records(dns_query(hostname), k)),
            Err(e) => Err(e),
        },
    }
}

/// The result of a reverse lookup: the first host name of the reply, without
/// one trailing `.`.
pub fn reverse_dns_answer(reply: Result<Vec<String>, String>) -> (r: Result<String, LookupError>)
    ensures
        match reply {
            Ok(names) => if names@.len() == 0 {
                r matches Err(LookupError::NotFound(LookupKind::Reverse))
            } else {
                r matches Ok(host) && host@ == without_root_dot(names@[0]@)
            },
            Err(e) => r matches Err(LookupError::ResolutionError(LookupKind::Reverse, t)) && t@
                == e@,
        },
{
    match reply {
        Ok(names) => {
            if names.len() == 0 {
                Err(LookupError::NotFound(LookupKind::Reverse))
            } else {
                let name = chars_of(names[0].as_str());
                Ok(string_of(&strip_root_dot(&name)))
            }
        },
        Err(e) => Err(LookupError::ResolutionError(LookupKind::Reverse, e)),
    }
}

/// The result of a forward lookup for addresses: the first IPv4 address of
/// the reply, in dotted-decimal text.
pub fn dns_answer(reply: Result<Vec<IpAnswer>, String>) -> (r: Result<String, LookupError>)
    ensures
        match reply {
            Ok(answers) => if ipv4_texts(answers@).len() == 0 {
                r matches Err(LookupError::NotFound(LookupKind::Addresses))
            } else {
                r matches Ok(ip) && ip@ == ipv4_texts(answers@)[0]
            },
            Err(e) => r matches Err(LookupError::ResolutionError(LookupKind::Addresses, t)) && t@
                == e@,
        },
{
    match reply {
        Ok(answers) => match first_ipv4(&answers) {
            Some(addr) => Ok(addr.to_text()),
            None => Err(LookupError::NotFound(LookupKind::Addresses)),
        },
        Err(e) => Err(LookupError::ResolutionError(LookupKind::Addresses, e)),
    }
}

/// The result of a forward lookup for all addresses: every IPv4 address of
/// the reply, in dotted-decimal text and in the reply's order.
pub fn dns_answer_all(reply: Result<Vec<IpAnswer>, String>) -> (r: Result<
    Vec<String>,
    LookupError,
>)
    ensures
        match reply {
            Ok(answers) => if ipv4_texts(answers@).len() == 0 {
                r matches Err(LookupError::NotFound(LookupKind::Addresses))
            } else {
                r matches Ok(ips) && text_views(ips@) == ipv4_texts(answers@)
            },
            Err(e) => r matches Err(LookupError::ResolutionError(LookupKind::Addresses, t)) && t@
                == e@,
        },
{
    match reply {
        Ok(answers) => {
            let mut ips: Vec<String> = Vec::new();
            let mut i: usize = 0;
            while i < answers.len()
                invariant
                    i <= answers.len(),
                    text_views(ips@) == ipv4_texts(answers@.take(i as int)),
                decreases answers.len() - i,
            {
                proof {
                    assert(answers@.take(i + 1).drop_last() =~= answers@.take(i as int));
                }
                if let IpAnswer::V4(addr) = answers[i] {
                    ips.push(addr.to_text());
                }
                i += 1;
                assert(text_views(ips@) =~= ipv4_texts(answers@.take(i as int)));
            }
            proof {
                assert(answers@.take(answers.len() as int) =~= answers@);
                assert(text_views(ips@).len() == ips@.len());
            }
            if ips.len() == 0 {
                Err(LookupError::NotFound(LookupKind::Addresses))
            } else {
                Ok(ips)
            }
        },
        Err(e) => Err(LookupError::ResolutionError(LookupKind::Addresses, e)),
    }
}

/// The result of a forward lookup for records of a named kind: the first
/// record of the reply, in the text the resolver gave it.
pub fn record_answer(reply: Result<Vec<String>, String>) -> (r: Result<String, LookupError>)
    ensures
        match reply {
            Ok(records) => if records@.len() == 0 {
                r matches Err(LookupError::NotFound(LookupKind::Records))
            } else {
                r matches Ok(first) && first@ == records@[0]@
            },
            Err(e) => r matches Err(LookupError::ResolutionError(LookupKind::Records, t)) && t@
                == e@,
        },
{
    match reply {
        Ok(records) => {
            if records.len() == 0 {
                Err(LookupError::NotFound(LookupKind::Records))
            } else {
                Ok(records[0].clone())
            }
        },
        Err(e) => Err(LookupError::ResolutionError(LookupKind::Records, e)),
    }
}

/// The result of a forward lookup for all records of a named kind: the
/// records of the reply, in the reply's order.
pub fn record_answer_all(reply: Result<Vec<String>, String>) -> (r: Result<
    Vec<String>,
    LookupError,
>)
    ensures
        match reply {
            Ok(records) => if records@.len() == 0 {
                r matches Err(LookupError::NotFound(LookupKind::Records))
            } else {
                r matches Ok(all) && text_views(all@) == text_views(records@)
            },
            Err(e) => r matches Err(LookupError::ResolutionError(LookupKind::Records, t)) && t@
                == e@,
        },
{
    match reply {
        Ok(records) => {
            if records.len() == 0 {
                Err(LookupError::NotFound(LookupKind::Records))
            } else {
                Ok(records)
            }
        },
        Err(e) => Err(LookupError::ResolutionError(LookupKind::Records, e)),
    }
}

} // verus!
