//! The record kinds that a lookup can ask for, and their names.

use vstd::prelude::*;
use crate::error::LookupError;
use crate::text::{chars_of, same_chars, trim_chars, trimmed, upper_chars, upper_text};

verus! {

/// One of the ten supported kinds of DNS record.
#[derive(Clone, Copy, Debug, PartialEq, Eq, Structural)]
pub enum RecordKind {
    A,
    AAAA,
    CNAME,
    MX,
    NS,
    PTR,
    SOA,
    SRV,
    TXT,
    CAA,
}

/// The ten kinds, in a fixed order.
pub open spec fn all_kinds() -> Seq<RecordKind> {
    seq![
        RecordKind::A,
        RecordKind::AAAA,
        RecordKind::CNAME,
        RecordKind::MX,
        RecordKind::NS,
        RecordKind::PTR,
        RecordKind::SOA,
        RecordKind::SRV,
        RecordKind::TXT,
        RecordKind::CAA,
    ]
}

/// Whether `s` is, but for case and the whitespace around it, the name of
/// the kind `k`.
pub open spec fn names_kind(s: Seq<char>, k: RecordKind) -> bool {
    upper_text(trimmed(s)) == k.name_text()
}

/// Whether `s` names any supported kind.
pub open spec fn is_kind_name(s: Seq<char>) -> bool {
    exists|k: RecordKind| names_kind(s, k)
}

impl RecordKind {
    /// The name of the kind, in upper case.
    pub open spec fn name_text(self) -> Seq<char> {
        match self {
            RecordKind::A => seq!['A'],
            RecordKind::AAAA => seq!['A', 'A', 'A', 'A'],
            RecordKind::CNAME => seq!['C', 'N', 'A', 'M', 'E'],
            RecordKind::MX => seq!['M', 'X'],
            RecordKind::NS => seq!['N', 'S'],
            RecordKind::PTR => seq!['P', 'T', 'R'],
            RecordKind::SOA => seq!['S', 'O', 'A'],
            RecordKind::SRV => seq!['S', 'R', 'V'],
            RecordKind::TXT => seq!['T', 'X', 'T'],
            RecordKind::CAA => seq!['C', 'A', 'A'],
        }
    }

    /// The name of the kind, in upper case.
    pub fn name(&self) -> (r: &'static str)
        ensures
            r@ == self.name_text(),
    {
        proof {
            reveal_strlit("A");
            reveal_strlit("AAAA");
            reveal_strlit("CNAME");
            reveal_strlit("MX");
            reveal_strlit("NS");
            reveal_strlit("PTR");
            reveal_strlit("SOA");
            reveal_strlit("SRV");
            reveal_strlit("TXT");
            reveal_strlit("CAA");
        }
        let r = match self {
            RecordKind::A => "A",
            RecordKind::AAAA => "AAAA",
            RecordKind::CNAME => "CNAME",
            RecordKind::MX => "MX",
            RecordKind::NS => "NS",
            RecordKind::PTR => "PTR",
            RecordKind::SOA => "SOA",
            RecordKind::SRV => "SRV",
            RecordKind::TXT => "TXT",
            RecordKind::CAA => "CAA",
        };
        assert(r@ =~= self.name_text());
        r
    }

    /// The ten kinds, in a fixed order.
    pub fn all() -> (r: Vec<RecordKind>)
        ensures
            r@ == all_kinds(),
    {
        let r = vec![
            RecordKind::A,
            RecordKind::AAAA,
            RecordKind::CNAME,
            RecordKind::MX,
            RecordKind::NS,
            RecordKind::PTR,
            RecordKind::SOA,
            RecordKind::SRV,
            RecordKind::TXT,
            RecordKind::CAA,
        ];
        assert(r@ =~= all_kinds());
        r
    }
}

/// Every kind stands in `all_kinds`.
pub proof fn lemma_all_kinds_complete(k: RecordKind)
    ensures
        all_kinds().contains(k),
{
    let i: int = match k {
        RecordKind::A => 0,
        RecordKind::AAAA => 1,
        RecordKind::CNAME => 2,
        RecordKind::MX => 3,
        RecordKind::NS => 4,
        RecordKind::PTR => 5,
        RecordKind::SOA => 6,
        RecordKind::SRV => 7,
        RecordKind::TXT => 8,
        RecordKind::CAA => 9,
    };
    assert(all_kinds()[i] == k);
}

/// No two kinds share a name.
pub proof fn lemma_name_injective(j: RecordKind, k: RecordKind)
    requires
        j.name_text() == k.name_text(),
    ensures
        j == k,
{
    let s = j.name_text();
    let t = k.name_text();
    assert(s.len() == t.len());
    assert(s[0] == t[0]);
    if s.len() > 1 {
        assert(s[1] == t[1]);
    }
    if s.len() > 2 {
        assert(s[2] == t[2]);
    }
}

/// The record kind that `text` names. Case and the whitespace around the
/// name do not count; a text that names no kind is handed back in the error
/// as it was given.
pub fn parse_record_type(text: &str) -> (r: Result<RecordKind, LookupError>)
    ensures
        match r {
            Ok(k) => names_kind(text@, k),
            Err(LookupError::UnsupportedRecordType(t)) => !is_kind_name(text@) && t@ == text@,
            Err(_) => false,
        },
{
    let given = chars_of(text);
    let wanted = upper_chars(&trim_chars(&given));
    let kinds = RecordKind::all();
    let mut i: usize = 0;
    while i < kinds.len()
        invariant
            i <= kinds.len(),
            kinds@ == all_kinds(),
            wanted@ == upper_text(trimmed(text@)),
            forall|j: int| 0 <= j < i ==> !names_kind(text@, #[trigger] kinds@[j]),
        decreases kinds.len() - i,
    {
        let k = kinds[i];
        let name = chars_of(k.name());
        if same_chars(&wanted, &name) {
            return Ok(k);
        }
        i += 1;
    }
    proof {
        assert forall|k: RecordKind| !names_kind(text@, k) by {
            lemma_all_kinds_complete(k);
        }
    }
    Err(LookupError::UnsupportedRecordType(text.to_owned()))
}

} // verus!
