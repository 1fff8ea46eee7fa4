//! What one row of a batch comes to: a text, a list of texts, or null.

use vstd::prelude::*;
use crate::error::LookupError;
use crate::protocol::{
    dns_answer, dns_answer_all, ipv4_texts, record_answer, record_answer_all,
    reverse_dns_answer, text_views, IpAnswer,
};
use crate::text::without_root_dot;

verus! {

/// The value of one row of a batch's output. A lookup that failed, for
/// whatever reason, gives `Null`.
#[derive(Debug, PartialEq, Eq)]
pub enum Outcome {
    Text(String),
    List(Vec<String>),
    Null,
}

/// An `Outcome` as a mathematical value.
pub enum OutcomeView {
    Text(Seq<char>),
    List(Seq<Seq<char>>),
    Null,
}

impl View for Outcome {
    type V = OutcomeView;

    open spec fn view(&self) -> OutcomeView {
        match self {
            Outcome::Text(t) => OutcomeView::Text(t@),
            Outcome::List(l) => OutcomeView::List(text_views(l@)),
            Outcome::Null => OutcomeView::Null,
        }
    }
}

/// One row of a batch's output, with the position of the row.
#[derive(Debug, PartialEq, Eq)]
pub struct ResultEntry {
    pub index: usize,
    pub outcome: Outcome,
}

impl Outcome {
    /// The outcome of a lookup for one text: the text, or null where the
    /// lookup failed.
    pub fn from_text(result: Result<String, LookupError>) -> (o: Outcome)
        ensures
            o@ == match result {
                Ok(t) => OutcomeView::Text(t@),
                Err(_) => OutcomeView::Null,
            },
    {
        match result {
            Ok(t) => Outcome::Text(t),
            Err(_) => Outcome::Null,
        }
    }

    /// The outcome of a lookup for a list of texts: the list, or null where
    /// the lookup failed.
    pub fn from_list(result: Result<Vec<String>, LookupError>) -> (o: Outcome)
        ensures
            o@ == match result {
                Ok(l) => OutcomeView::List(text_views(l@)),
                Err(_) => OutcomeView::Null,
            },
    {
        match result {
            Ok(l) => Outcome::List(l),
            Err(_) => Outcome::Null,
        }
    }

    /// The text of a text outcome.
    pub fn into_text(self) -> (r: Option<String>)
        ensures
            match self@ {
                OutcomeView::Text(t) => r matches Some(s) && s@ == t,
                _ => r is None,
            },
    {
        match self {
            Outcome::Text(t) => Some(t),
            _ => None,
        }
    }

    /// The list of a list outcome.
    pub fn into_list(self) -> (r: Option<Vec<String>>)
        ensures
            match self@ {
                OutcomeView::List(l) => r matches Some(v) && text_views(v@) == l,
                _ => r is None,
            },
    {
        match self {
            Outcome::List(l) => Some(l),
            _ => None,
        }
    }
}

/// A reply of texts as a mathematical value: the texts in the resolver's
/// order, or nothing where the resolver failed.
pub open spec fn texts_of(reply: Result<Vec<String>, String>) -> Option<Seq<Seq<char>>> {
    match reply {
        Ok(texts) => Some(text_views(texts@)),
        Err(_) => None,
    }
}

/// A reply of addresses as a mathematical value: the IPv4 addresses among
/// them as texts, in the resolver's order, or nothing where the resolver
/// failed.
pub open spec fn addresses_of(reply: Result<Vec<IpAnswer>, String>) -> Option<Seq<Seq<char>>> {
    match reply {
        Ok(answers) => Some(ipv4_texts(answers@)),
        Err(_) => None,
    }
}

/// The first of the texts, or null where there is none.
pub open spec fn first_or_null(texts: Option<Seq<Seq<char>>>) -> OutcomeView {
    match texts {
        Some(all) => if all.len() == 0 {
            OutcomeView::Null
        } else {
            OutcomeView::Text(all[0])
        },
        None => OutcomeView::Null,
    }
}

/// All of the texts, or null where there is none.
pub open spec fn all_or_null(texts: Option<Seq<Seq<char>>>) -> OutcomeView {
    match texts {
        Some(all) => if all.len() == 0 {
            OutcomeView::Null
        } else {
            OutcomeView::List(all)
        },
        None => OutcomeView::Null,
    }
}

/// The first host name without one trailing `.`, or null where there is
/// none.
pub open spec fn host_or_null(names: Option<Seq<Seq<char>>>) -> OutcomeView {
    match names {
        Some(all) => if all.len() == 0 {
            OutcomeView::Null
        } else {
            OutcomeView::Text(without_root_dot(all[0]))
        },
        None => OutcomeView::Null,
    }
}

/// What a reverse lookup comes to, given the resolver's reply: the first
/// host name without one trailing `.`, or null.
pub fn reverse_dns_outcome(reply: Result<Vec<String>, String>) -> (o: Outcome)
    ensures
        o@ == host_or_null(texts_of(reply)),
{
    let ghost given = reply;
    let o = Outcome::from_text(reverse_dns_answer(reply));
    proof {
        if given is Ok {
            assert(text_views(given->Ok_0@).len() == given->Ok_0@.len());
        }
    }
    o
}

/// What a forward lookup for addresses comes to, given the resolver's reply:
/// the first IPv4 address, or null.
pub fn dns_outcome(reply: Result<Vec<IpAnswer>, String>) -> (o: Outcome)
    ensures
        o@ == first_or_null(addresses_of(reply)),
{
    Outcome::from_text(dns_answer(reply))
}

/// What a forward lookup for all addresses comes to, given the resolver's
/// reply: the IPv4 addresses in the reply's order, or null. It is never
/// an empty list.
pub fn dns_all_outcome(reply: Result<Vec<IpAnswer>, String>) -> (o: Outcome)
    ensures
        o@ == all_or_null(addresses_of(reply)),
        o@ matches OutcomeView::List(l) ==> l.len() > 0,
{
    Outcome::from_list(dns_answer_all(reply))
}

/// What a forward lookup for records of a named kind comes to, given the
/// resolver's reply: the first record, or null.
pub fn record_outcome(reply: Result<Vec<String>, String>) -> (o: Outcome)
    ensures
        o@ == first_or_null(texts_of(reply)),
{
    let ghost given = reply;
    let o = Outcome::from_text(record_answer(reply));
    proof {
        if given is Ok {
            assert(text_views(given->Ok_0@).len() == given->Ok_0@.len());
        }
    }
    o
}

/// What a forward lookup for all records of a named kind comes to, given
/// the resolver's reply: the records in the reply's order, or null. It is
/// never an empty list.
pub fn record_all_outcome(reply: Result<Vec<String>, String>) -> (o: Outcome)
    ensures
        o@ == all_or_null(texts_of(reply)),
        o@ matches OutcomeView::List(l) ==> l.len() > 0,
{
    let ghost given = reply;
    let o = Outcome::from_list(record_answer_all(reply));
    proof {
        if given is Ok {
            assert(text_views(given->Ok_0@).len() == given->Ok_0@.len());
        }
    }
    o
}

/// A lookup is decided by the texts of the resolver's reply alone: two
/// replies with the same texts, or two failures, come to the same outcome.
pub proof fn lemma_same_reply_same_outcome(
    first: Result<Vec<String>, String>,
    second: Result<Vec<String>, String>,
)
    requires
        texts_of(first) == texts_of(second),
    ensures
        host_or_null(texts_of(first)) == host_or_null(texts_of(second)),
        first_or_null(texts_of(first)) == first_or_null(texts_of(second)),
        all_or_null(texts_of(first)) == all_or_null(texts_of(second)),
{
}

/// A lookup for addresses is decided by the IPv4 addresses of the
/// resolver's reply alone: two replies with the same IPv4 addresses in the
/// same order, or two failures, come to the same outcome.
pub proof fn lemma_same_addresses_same_outcome(
    first: Result<Vec<IpAnswer>, String>,
    second: Result<Vec<IpAnswer>, String>,
)
    requires
        addresses_of(first) == addresses_of(second),
    ensures
        first_or_null(addresses_of(first)) == first_or_null(addresses_of(second)),
        all_or_null(addresses_of(first)) == all_or_null(addresses_of(second)),
{
}

/// A list outcome is never empty: a lookup for all records that finds none
/// comes to null.
pub proof fn lemma_no_empty_list(texts: Option<Seq<Seq<char>>>)
    ensures
        all_or_null(texts) matches OutcomeView::List(l) ==> l.len() > 0,
        texts matches Some(all) && all.len() == 0 ==> all_or_null(texts) == OutcomeView::Null,
{
}

} // verus!
