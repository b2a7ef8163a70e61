//! Four security tiers, named after trigrams.

use vstd::prelude::*;
use crate::text::{ascii_lower, ascii_or_cjk, lowercase_output, str_eq, to_lowercase};
use vstd::string::StringExecFns;

verus! {

#[derive(Debug, Clone, Copy, PartialEq, Eq, Hash, Structural)]
pub enum SecurityTier {
    KanWater,
    XunWind,
    LiFire,
    QianHeaven,
}

/// Position of a tier in the order Kan < Xun < Li < Qian.
pub open spec fn tier_rank(t: SecurityTier) -> u8 {
    match t {
        SecurityTier::KanWater => 0,
        SecurityTier::XunWind => 1,
        SecurityTier::LiFire => 2,
        SecurityTier::QianHeaven => 3,
    }
}

/// The tier a (lowercased) name denotes.
pub open spec fn tier_for_name(name: Seq<char>) -> Option<SecurityTier> {
    if name == "kan"@ || name == "坎水"@ || name == "坎"@ || name == "艮渊"@ {
        Some(SecurityTier::KanWater)
    } else if name == "xun"@ || name == "巽风"@ || name == "巽"@ || name == "巽翎"@ {
        Some(SecurityTier::XunWind)
    } else if name == "li"@ || name == "离火"@ || name == "离"@ || name == "离曜"@ {
        Some(SecurityTier::LiFire)
    } else if name == "qian"@ || name == "乾天"@ || name == "乾"@ || name == "乾极"@ {
        Some(SecurityTier::QianHeaven)
    } else {
        None
    }
}

/// Every tier is named by its pinyin name, its element name, its trigram
/// character and its second name, and no two tiers share a name.
pub proof fn lemma_tier_names(t: SecurityTier)
    ensures
        tier_for_name(
            match t {
                SecurityTier::KanWater => "kan"@,
                SecurityTier::XunWind => "xun"@,
                SecurityTier::LiFire => "li"@,
                SecurityTier::QianHeaven => "qian"@,
            },
        ) == Some(t),
        tier_for_name(
            match t {
                SecurityTier::KanWater => "坎水"@,
                SecurityTier::XunWind => "巽风"@,
                SecurityTier::LiFire => "离火"@,
                SecurityTier::QianHeaven => "乾天"@,
            },
        ) == Some(t),
        tier_for_name(
            match t {
                SecurityTier::KanWater => "坎"@,
                SecurityTier::XunWind => "巽"@,
                SecurityTier::LiFire => "离"@,
                SecurityTier::QianHeaven => "乾"@,
            },
        ) == Some(t),
        tier_for_name(
            match t {
                SecurityTier::KanWater => "艮渊"@,
                SecurityTier::XunWind => "巽翎"@,
                SecurityTier::LiFire => "离曜"@,
                SecurityTier::QianHeaven => "乾极"@,
            },
        ) == Some(t),
{
    reveal_strlit("kan");
    reveal_strlit("坎水");
    reveal_strlit("坎");
    reveal_strlit("艮渊");
    reveal_strlit("xun");
    reveal_strlit("巽风");
    reveal_strlit("巽");
    reveal_strlit("巽翎");
    reveal_strlit("li");
    reveal_strlit("离火");
    reveal_strlit("离");
    reveal_strlit("离曜");
    reveal_strlit("qian");
    reveal_strlit("乾天");
    reveal_strlit("乾");
    reveal_strlit("乾极");
    assert("坎"@[0] != "巽"@[0]);
    assert("坎"@[0] != "离"@[0]);
    assert("坎"@[0] != "乾"@[0]);
    assert("巽"@[0] != "离"@[0]);
    assert("巽"@[0] != "乾"@[0]);
    assert("离"@[0] != "乾"@[0]);
    assert("坎水"@[0] != "艮渊"@[0]);
    assert("坎水"@[0] != "巽风"@[0]);
    assert("坎水"@[0] != "巽翎"@[0]);
    assert("坎水"@[0] != "离火"@[0]);
    assert("坎水"@[0] != "离曜"@[0]);
    assert("坎水"@[0] != "乾天"@[0]);
    assert("坎水"@[0] != "乾极"@[0]);
    assert("坎水"@[0] != "li"@[0]);
    assert("艮渊"@[0] != "巽风"@[0]);
    assert("艮渊"@[0] != "巽翎"@[0]);
    assert("艮渊"@[0] != "离火"@[0]);
    assert("艮渊"@[0] != "离曜"@[0]);
    assert("艮渊"@[0] != "乾天"@[0]);
    assert("艮渊"@[0] != "乾极"@[0]);
    assert("艮渊"@[0] != "li"@[0]);
    assert("巽风"@[1] != "巽翎"@[1]);
    assert("巽风"@[0] != "离火"@[0]);
    assert("巽风"@[0] != "离曜"@[0]);
    assert("巽风"@[0] != "乾天"@[0]);
    assert("巽风"@[0] != "乾极"@[0]);
    assert("巽风"@[0] != "li"@[0]);
    assert("巽翎"@[0] != "离火"@[0]);
    assert("巽翎"@[0] != "离曜"@[0]);
    assert("巽翎"@[0] != "乾天"@[0]);
    assert("巽翎"@[0] != "乾极"@[0]);
    assert("巽翎"@[0] != "li"@[0]);
    assert("离火"@[1] != "离曜"@[1]);
    assert("离火"@[0] != "乾天"@[0]);
    assert("离火"@[0] != "乾极"@[0]);
    assert("离火"@[0] != "li"@[0]);
    assert("离曜"@[0] != "乾天"@[0]);
    assert("离曜"@[0] != "乾极"@[0]);
    assert("离曜"@[0] != "li"@[0]);
    assert("乾天"@[1] != "乾极"@[1]);
    assert("乾天"@[0] != "li"@[0]);
    assert("乾极"@[0] != "li"@[0]);
    assert("kan"@[0] != "xun"@[0]);
}

pub open spec fn planet_count_spec(t: SecurityTier) -> usize {
    match t {
        SecurityTier::KanWater => 3,
        SecurityTier::XunWind => 5,
        SecurityTier::LiFire => 7,
        SecurityTier::QianHeaven => 8,
    }
}

pub open spec fn padding_max_spec(t: SecurityTier) -> usize {
    match t {
        SecurityTier::KanWater => 0,
        SecurityTier::XunWind => 63,
        SecurityTier::LiFire => 127,
        SecurityTier::QianHeaven => 255,
    }
}

/// Chinese name of a tier.
pub open spec fn tier_name_cn(t: SecurityTier) -> Seq<char> {
    match t {
        SecurityTier::KanWater => "坎水级·艮渊"@,
        SecurityTier::XunWind => "巽风级·巽翎"@,
        SecurityTier::LiFire => "离火级·离曜"@,
        SecurityTier::QianHeaven => "乾天级·乾极"@,
    }
}

/// Trigram symbol of a tier.
pub open spec fn tier_symbol(t: SecurityTier) -> Seq<char> {
    match t {
        SecurityTier::KanWater => "☵"@,
        SecurityTier::XunWind => "☴"@,
        SecurityTier::LiFire => "☲"@,
        SecurityTier::QianHeaven => "☰"@,
    }
}

impl SecurityTier {
    pub fn rank(&self) -> (r: u8)
        ensures
            r == tier_rank(*self),
    {
        match self {
            SecurityTier::KanWater => 0,
            SecurityTier::XunWind => 1,
            SecurityTier::LiFire => 2,
            SecurityTier::QianHeaven => 3,
        }
    }

    pub fn name_cn(&self) -> (name: &'static str)
        ensures
            name@ == tier_name_cn(*self),
    {
        match self {
            SecurityTier::KanWater => "坎水级·艮渊",
            SecurityTier::XunWind => "巽风级·巽翎",
            SecurityTier::LiFire => "离火级·离曜",
            SecurityTier::QianHeaven => "乾天级·乾极",
        }
    }

    pub fn symbol(&self) -> (sym: &'static str)
        ensures
            sym@ == tier_symbol(*self),
    {
        match self {
            SecurityTier::KanWater => "☵",
            SecurityTier::XunWind => "☴",
            SecurityTier::LiFire => "☲",
            SecurityTier::QianHeaven => "☰",
        }
    }

    pub fn planet_count(&self) -> (n: usize)
        ensures
            n == planet_count_spec(*self),
    {
        match self {
            SecurityTier::KanWater => 3,
            SecurityTier::XunWind => 5,
            SecurityTier::LiFire => 7,
            SecurityTier::QianHeaven => 8,
        }
    }

    /// Every tier from Xun up ratchets.
    pub fn has_ratchet(&self) -> (b: bool)
        ensures
            b == (tier_rank(*self) >= 1),
    {
        self.rank() >= 1
    }

    pub fn has_matrix_obfuscation(&self) -> (b: bool)
        ensures
            b == (tier_rank(*self) >= 2),
    {
        self.rank() >= 2
    }

    pub fn has_traffic_mimicry(&self) -> (b: bool)
        ensures
            b == (tier_rank(*self) >= 2),
    {
        self.rank() >= 2
    }

    pub fn has_reordering(&self) -> (b: bool)
        ensures
            b == (tier_rank(*self) >= 2),
    {
        self.rank() >= 2
    }

    pub fn has_identity_hiding(&self) -> (b: bool)
        ensures
            b == (tier_rank(*self) >= 2),
    {
        self.rank() >= 2
    }

    pub fn has_deniable_auth(&self) -> (b: bool)
        ensures
            b == (tier_rank(*self) >= 2),
    {
        self.rank() >= 2
    }

    pub fn padding_range(&self) -> (r: (usize, usize))
        ensures
            r == (0usize, padding_max_spec(*self)),
    {
        match self {
            SecurityTier::KanWater => (0, 0),
            SecurityTier::XunWind => (0, 63),
            SecurityTier::LiFire => (0, 127),
            SecurityTier::QianHeaven => (0, 255),
        }
    }

    pub fn default_config(&self) -> (cfg: TierConfig)
        ensures
            is_default_config(cfg, *self),
    {
        let protocol = match self {
            SecurityTier::KanWater => "none",
            _ => "tls",
        };
        TierConfig {
            tier: *self,
            use_ed25519: self.rank() >= 1,
            use_x25519: self.rank() >= 1,
            use_kyber: self.rank() >= 2,
            planet_count: self.planet_count(),
            ratchet: self.has_ratchet(),
            matrix_obfuscation: self.has_matrix_obfuscation(),
            traffic_mimicry: self.has_traffic_mimicry(),
            reordering: self.has_reordering(),
            identity_hiding: self.has_identity_hiding(),
            deniable_auth: self.has_deniable_auth(),
            padding_max: self.padding_range().1,
            mimic_protocol: String::from_str(protocol),
        }
    }

    /// Parses a tier name (pinyin or Chinese, case-insensitive).
    pub fn from_name(name: &str) -> (t: Option<SecurityTier>)
        ensures
            t == tier_for_name(lowercase_output(name@)),
            (forall|i: int| 0 <= i < name@.len() ==> ascii_or_cjk(#[trigger] name@[i])) ==> t
                == tier_for_name(name@.map_values(|c: char| ascii_lower(c))),
    {
        let lower = to_lowercase(name);
        let s = lower.as_str();
        if str_eq(s, "kan") || str_eq(s, "坎水") || str_eq(s, "坎") || str_eq(s, "艮渊") {
            Some(SecurityTier::KanWater)
        } else if str_eq(s, "xun") || str_eq(s, "巽风") || str_eq(s, "巽") || str_eq(s, "巽翎") {
            Some(SecurityTier::XunWind)
        } else if str_eq(s, "li") || str_eq(s, "离火") || str_eq(s, "离") || str_eq(s, "离曜") {
            Some(SecurityTier::LiFire)
        } else if str_eq(s, "qian") || str_eq(s, "乾天") || str_eq(s, "乾") || str_eq(s, "乾极") {
            Some(SecurityTier::QianHeaven)
        } else {
            None
        }
    }
}

/// `cfg` is the default configuration of tier `t`.
pub open spec fn is_default_config(cfg: TierConfig, t: SecurityTier) -> bool {
    &&& cfg.tier == t
    &&& cfg.use_ed25519 == (tier_rank(t) >= 1)
    &&& cfg.use_x25519 == (tier_rank(t) >= 1)
    &&& cfg.use_kyber == (tier_rank(t) >= 2)
    &&& cfg.planet_count == planet_count_spec(t)
    &&& cfg.ratchet == (tier_rank(t) >= 1)
    &&& cfg.matrix_obfuscation == (tier_rank(t) >= 2)
    &&& cfg.traffic_mimicry == (tier_rank(t) >= 2)
    &&& cfg.reordering == (tier_rank(t) >= 2)
    &&& cfg.identity_hiding == (tier_rank(t) >= 2)
    &&& cfg.deniable_auth == (tier_rank(t) >= 2)
    &&& cfg.padding_max == padding_max_spec(t)
    &&& cfg.mimic_protocol@ == (if t == SecurityTier::KanWater {
        "none"@
    } else {
        "tls"@
    })
}

/// Feature switches of a tier.
#[derive(Debug, Clone)]
pub struct TierConfig {
    pub tier: SecurityTier,
    pub use_ed25519: bool,
    pub use_x25519: bool,
    pub use_kyber: bool,
    pub planet_count: usize,
    pub ratchet: bool,
    pub matrix_obfuscation: bool,
    pub traffic_mimicry: bool,
    pub reordering: bool,
    pub identity_hiding: bool,
    pub deniable_auth: bool,
    pub padding_max: usize,
    pub mimic_protocol: String,
}

/// Each capability that a tier has, every higher tier has too.
pub proof fn lemma_capabilities_monotone(a: SecurityTier, b: SecurityTier)
    requires
        tier_rank(a) <= tier_rank(b),
    ensures
        tier_rank(a) >= 1 ==> tier_rank(b) >= 1,
        tier_rank(a) >= 2 ==> tier_rank(b) >= 2,
        planet_count_spec(a) <= planet_count_spec(b),
        padding_max_spec(a) <= padding_max_spec(b),
{
}

} // verus!
