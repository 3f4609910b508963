use crate::dac::psl::{filter_of, prepare_adblock_filter, AdblockFilter};
use publicsuffix2::List;
use vstd::prelude::*;

verus! {

/// Bit 31 of a kind word: set when the rule applies to first-party requests too.
pub const NOT_THIRD_PARTY: u32 = 0x8000_0000;

/// Bits 28..30 of a kind word: the anchoring kind.
pub const KIND_MASK: u32 = 0x7000_0000;

/// The top four bits of a kind word.
pub const TAG_MASK: u32 = 0xF000_0000;

/// How a pattern found by the automaton must be anchored in the URL.
#[derive(Clone, Copy, Debug, PartialEq, Eq, Structural)]
pub enum PatternKind {
    /// Anchored at the start of the URL or right after a `:`.
    SlashedStart,
    /// Starts with a `.` and ends at the end of the host or before the path.
    DomainEndWithDotPrefix,
    /// Preceded by `//` or by a `.`.
    DomainEnd,
    /// Anywhere.
    Substring,
    /// Preceded by `//`, or by a `.` inside the subdomain part of the host.
    AnyDomainPartBeforeETLD,
}

/// The kind bits of each kind.
pub open spec fn kind_bits(k: PatternKind) -> u32 {
    match k {
        PatternKind::SlashedStart => 0x1000_0000u32,
        PatternKind::DomainEndWithDotPrefix => 0x2000_0000u32,
        PatternKind::DomainEnd => 0x3000_0000u32,
        PatternKind::Substring => 0x4000_0000u32,
        PatternKind::AnyDomainPartBeforeETLD => 0x5000_0000u32,
    }
}

/// The kind that a word's kind bits stand for, if any.
pub open spec fn kind_of_bits(v: u32) -> Option<PatternKind> {
    let k = v & KIND_MASK;
    if k == 0x1000_0000u32 {
        Some(PatternKind::SlashedStart)
    } else if k == 0x2000_0000u32 {
        Some(PatternKind::DomainEndWithDotPrefix)
    } else if k == 0x3000_0000u32 {
        Some(PatternKind::DomainEnd)
    } else if k == 0x4000_0000u32 {
        Some(PatternKind::Substring)
    } else if k == 0x5000_0000u32 {
        Some(PatternKind::AnyDomainPartBeforeETLD)
    } else {
        None
    }
}

/// The word that encodes a kind and a third-party flag.
pub open spec fn encode_tag(k: PatternKind, third_party: bool) -> u32 {
    if third_party {
        kind_bits(k)
    } else {
        kind_bits(k) | NOT_THIRD_PARTY
    }
}

/// A pattern's kind word: a kind in bits 28..30 and, in bit 31, whether the
/// rule is NOT restricted to third-party requests. The low 28 bits are zero.
#[derive(Clone, Copy, Debug, PartialEq, Eq, Structural)]
pub struct PatternType(pub u32);

impl PatternType {
    pub open spec fn bits(self) -> u32 {
        self.0
    }

    /// The low 28 bits are clear.
    pub open spec fn wf(self) -> bool {
        self.0 & 0x0FFF_FFFFu32 == 0
    }

    pub open spec fn kind(self) -> Option<PatternKind> {
        kind_of_bits(self.0)
    }

    pub open spec fn third_party(self) -> bool {
        self.0 & NOT_THIRD_PARTY == 0
    }

    pub open spec fn of_kind_spec(k: PatternKind, third_party: bool) -> u32 {
        encode_tag(k, third_party)
    }

    /// The tag for a kind and a third-party flag.
    pub fn of_kind(k: PatternKind, third_party: bool) -> (r: PatternType)
        ensures
            r.0 == encode_tag(k, third_party),
            r.wf(),
            r.kind() == Some(k),
            r.third_party() == third_party,
    {
        let bits: u32 = match k {
            PatternKind::SlashedStart => 0x1000_0000u32,
            PatternKind::DomainEndWithDotPrefix => 0x2000_0000u32,
            PatternKind::DomainEnd => 0x3000_0000u32,
            PatternKind::Substring => 0x4000_0000u32,
            PatternKind::AnyDomainPartBeforeETLD => 0x5000_0000u32,
        };
        proof {
            lemma_tag_round_trip(k, third_party);
        }
        if third_party {
            PatternType(bits)
        } else {
            PatternType(bits | NOT_THIRD_PARTY)
        }
    }

    /// The same kind, with the third-party flag set as given.
    pub fn with_third_party(self, third_party: bool) -> (r: PatternType)
        ensures
            r.0 == (if third_party {
                self.0 & !NOT_THIRD_PARTY
            } else {
                self.0 | NOT_THIRD_PARTY
            }) & TAG_MASK,
            r.wf(),
            r.third_party() == third_party,
            r.kind() == kind_of_bits(self.0),
    {
        let v = self.0;
        if third_party {
            assert((v & !0x8000_0000u32) & 0xF000_0000u32 & 0x0FFF_FFFFu32 == 0) by (bit_vector);
            assert(((v & !0x8000_0000u32) & 0xF000_0000u32) & 0x8000_0000u32 == 0) by (bit_vector);
            assert(((v & !0x8000_0000u32) & 0xF000_0000u32) & 0x7000_0000u32 == v & 0x7000_0000u32)
                by (bit_vector);
            PatternType::from(v & !NOT_THIRD_PARTY)
        } else {
            assert((v | 0x8000_0000u32) & 0xF000_0000u32 & 0x0FFF_FFFFu32 == 0) by (bit_vector);
            assert(((v | 0x8000_0000u32) & 0xF000_0000u32) & 0x8000_0000u32 != 0) by (bit_vector);
            assert(((v | 0x8000_0000u32) & 0xF000_0000u32) & 0x7000_0000u32 == v & 0x7000_0000u32)
                by (bit_vector);
            PatternType::from(v | NOT_THIRD_PARTY)
        }
    }

    /// Reads the tag out of a stored automaton value: its top four bits.
    pub fn from(v: u32) -> (r: PatternType)
        ensures
            r.0 == v & TAG_MASK,
            r.wf(),
    {
        assert(v & 0xF000_0000u32 & 0x0FFF_FFFFu32 == 0) by (bit_vector);
        PatternType(v & TAG_MASK)
    }

    /// Whether the rule applies to third-party requests only.
    pub fn is_third_party(self) -> (r: bool)
        ensures
            r == self.third_party(),
    {
        self.0 & NOT_THIRD_PARTY == 0
    }
}

/// The subdomain range of a prepared filter, if any.
pub open spec fn sub_range(f: Option<AdblockFilter>) -> Option<(usize, usize)> {
    match f {
        Some(f) => Some(f.sub_without_www),
        None => None,
    }
}

/// Whether a hit of a pattern of tag `t` at `pos` in the lowercased URL `src`
/// is anchored as its kind demands; `sub` is the subdomain range of `src`.
pub open spec fn anchor_ok(t: PatternType, src: Seq<u8>, pos: int, sub: Option<(usize, usize)>) -> bool {
    let k = t.0 & KIND_MASK;
    let slashed = pos > 1 && src[pos - 1] == 47 && src[pos - 2] == 47;
    let dotted = pos > 0 && src[pos - 1] == 46;
    if k == 0x1000_0000u32 {
        pos == 0 || (pos > 0 && src[pos - 1] == 58)
    } else if k == 0x2000_0000u32 || k == 0x4000_0000u32 {
        true
    } else if slashed {
        true
    } else if dotted {
        k != 0x5000_0000u32 || match sub {
            Some((a, e)) => a < e && a <= pos < e,
            None => false,
        }
    } else {
        false
    }
}

impl PatternType {
    /// Whether a hit at `pos` is anchored as the kind demands, given the
    /// subdomain range of `src`.
    pub fn is_match_at(self, src: &[u8], pos: usize, sub: Option<(usize, usize)>) -> (r: bool)
        requires
            pos <= src@.len(),
        ensures
            r == anchor_ok(self, src@, pos as int, sub),
    {
        let k = self.0 & KIND_MASK;
        if k == 0x1000_0000u32 {
            return pos == 0 || src[pos - 1] == 58;
        }
        if k == 0x2000_0000u32 || k == 0x4000_0000u32 {
            return true;
        }
        let slashed = pos > 1 && src[pos - 1] == 47 && src[pos - 2] == 47;
        if slashed {
            return true;
        }
        if pos > 0 && src[pos - 1] == 46 {
            if k != 0x5000_0000u32 {
                return true;
            }
            return match sub {
                Some((a, e)) => a < e && a <= pos && pos < e,
                None => false,
            };
        }
        false
    }

    /// Whether a hit of this pattern at `pos` in the lowercased URL `src` is
    /// anchored as its kind demands. For a hit inside the subdomain part, the
    /// subdomain comes from splitting `src` with the suffix list.
    pub fn is_match(self, list: &List, src: &[u8], pos: usize) -> (r: bool)
        requires
            pos <= src@.len(),
        ensures
            exists|sld: Option<usize>| r == anchor_ok(self, src@, pos as int, sub_range(filter_of(src@, sld))),
    {
        let k = self.0 & KIND_MASK;
        let dotted_sub = k == 0x5000_0000u32 && pos > 0 && src[pos - 1] == 46 && !(pos > 1 && src[pos
            - 1] == 47 && src[pos - 2] == 47);
        if !dotted_sub {
            let r = self.is_match_at(src, pos, None);
            assert(r == anchor_ok(self, src@, pos as int, sub_range(filter_of(src@, None))));
            return r;
        }
        let f = prepare_adblock_filter(list, src);
        let sub = match f {
            Some(f) => Some(f.sub_without_www),
            None => None,
        };
        self.is_match_at(src, pos, sub)
    }
}

/// Decoding the encoded word of a tag gives back its kind and its
/// third-party flag, and the encoded word has its low 28 bits clear.
pub proof fn lemma_tag_round_trip(k: PatternKind, third_party: bool)
    ensures
        encode_tag(k, third_party) & 0x0FFF_FFFFu32 == 0,
        kind_of_bits(encode_tag(k, third_party) & TAG_MASK) == Some(k),
        (encode_tag(k, third_party) & TAG_MASK) & NOT_THIRD_PARTY == 0 <==> third_party,
        encode_tag(k, third_party) & TAG_MASK == encode_tag(k, third_party),
{
    let b = kind_bits(k);
    assert(b == 0x1000_0000u32 || b == 0x2000_0000u32 || b == 0x3000_0000u32 || b
        == 0x4000_0000u32 || b == 0x5000_0000u32);
    lemma_kind_bits_facts(b);
}

proof fn lemma_kind_bits_facts(b: u32)
    requires
        b == 0x1000_0000u32 || b == 0x2000_0000u32 || b == 0x3000_0000u32 || b == 0x4000_0000u32
            || b == 0x5000_0000u32,
    ensures
        b & 0x0FFF_FFFFu32 == 0,
        (b | 0x8000_0000u32) & 0x0FFF_FFFFu32 == 0,
        b & 0xF000_0000u32 == b,
        (b | 0x8000_0000u32) & 0xF000_0000u32 == b | 0x8000_0000u32,
        b & 0x7000_0000u32 == b,
        (b | 0x8000_0000u32) & 0x7000_0000u32 == b,
        b & 0x8000_0000u32 == 0,
        (b | 0x8000_0000u32) & 0x8000_0000u32 != 0,
{
    assert(b & 0x0FFF_FFFFu32 == 0 && (b | 0x8000_0000u32) & 0x0FFF_FFFFu32 == 0 && b
        & 0xF000_0000u32 == b && (b | 0x8000_0000u32) & 0xF000_0000u32 == b | 0x8000_0000u32 && b
        & 0x7000_0000u32 == b && (b | 0x8000_0000u32) & 0x7000_0000u32 == b && b & 0x8000_0000u32
        == 0 && (b | 0x8000_0000u32) & 0x8000_0000u32 != 0) by (bit_vector)
        requires
            b == 0x1000_0000u32 || b == 0x2000_0000u32 || b == 0x3000_0000u32 || b
                == 0x4000_0000u32 || b == 0x5000_0000u32,
    ;
}

} // verus!
