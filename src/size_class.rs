//! The magnitude buckets that a byte total is classified into.
use vstd::prelude::*;

verus! {

pub const KIB: u64 = 1024;
pub const MIB: u64 = 1048576;
pub const GIB: u64 = 1073741824;
pub const TIB: u64 = 1099511627776;
pub const PIB: u64 = 1125899906842624;
pub const EIB: u64 = 1152921504606846976;

/// A binary magnitude bucket, from bytes up to exbibytes.
#[derive(PartialEq, Eq, Structural, Clone, Copy, Debug)]
pub enum SizeClass {
    B,
    KiB,
    MiB,
    GiB,
    TiB,
    PiB,
    EiB,
}

impl SizeClass {
    /// Position of the bucket on the ladder: `B` is 0, `EiB` is 6.
    pub open spec fn rank_spec(self) -> nat {
        match self {
            SizeClass::B => 0,
            SizeClass::KiB => 1,
            SizeClass::MiB => 2,
            SizeClass::GiB => 3,
            SizeClass::TiB => 4,
            SizeClass::PiB => 5,
            SizeClass::EiB => 6,
        }
    }

    /// The unit label of the bucket.
    pub open spec fn label_spec(self) -> Seq<char> {
        match self {
            SizeClass::B => "B"@,
            SizeClass::KiB => "KiB"@,
            SizeClass::MiB => "MiB"@,
            SizeClass::GiB => "GiB"@,
            SizeClass::TiB => "TiB"@,
            SizeClass::PiB => "PiB"@,
            SizeClass::EiB => "EiB"@,
        }
    }

    pub fn rank(&self) -> (r: u8)
        ensures
            r as nat == self.rank_spec(),
    {
        match self {
            SizeClass::B => 0,
            SizeClass::KiB => 1,
            SizeClass::MiB => 2,
            SizeClass::GiB => 3,
            SizeClass::TiB => 4,
            SizeClass::PiB => 5,
            SizeClass::EiB => 6,
        }
    }

    pub fn label(&self) -> (r: String)
        ensures
            r@ == self.label_spec(),
    {
        proof {
            reveal_strlit("B");
            reveal_strlit("KiB");
            reveal_strlit("MiB");
            reveal_strlit("GiB");
            reveal_strlit("TiB");
            reveal_strlit("PiB");
            reveal_strlit("EiB");
        }
        match self {
            SizeClass::B => String::from_str("B"),
            SizeClass::KiB => String::from_str("KiB"),
            SizeClass::MiB => String::from_str("MiB"),
            SizeClass::GiB => String::from_str("GiB"),
            SizeClass::TiB => String::from_str("TiB"),
            SizeClass::PiB => String::from_str("PiB"),
            SizeClass::EiB => String::from_str("EiB"),
        }
    }
}

/// The bucket of a byte total: the largest unit whose threshold the total
/// strictly exceeds, so a total of exactly one unit stays in the unit below.
pub open spec fn classify_spec(size: u64) -> SizeClass {
    if size > EIB {
        SizeClass::EiB
    } else if size > PIB {
        SizeClass::PiB
    } else if size > TIB {
        SizeClass::TiB
    } else if size > GIB {
        SizeClass::GiB
    } else if size > MIB {
        SizeClass::MiB
    } else if size > KIB {
        SizeClass::KiB
    } else {
        SizeClass::B
    }
}

/// Classifies a byte total into its bucket.
pub fn classify(size: u64) -> (r: SizeClass)
    ensures
        r == classify_spec(size),
{
    if size > EIB {
        SizeClass::EiB
    } else if size > PIB {
        SizeClass::PiB
    } else if size > TIB {
        SizeClass::TiB
    } else if size > GIB {
        SizeClass::GiB
    } else if size > MIB {
        SizeClass::MiB
    } else if size > KIB {
        SizeClass::KiB
    } else {
        SizeClass::B
    }
}

/// The unit label of the bucket that a byte total falls into.
pub fn format_filesize_type(size: u64) -> (r: String)
    ensures
        r@ == classify_spec(size).label_spec(),
{
    classify(size).label()
}

/// Classification is monotonic: a larger total never lands in a lower bucket.
pub proof fn lemma_classify_monotonic(x: u64, y: u64)
    requires
        x <= y,
    ensures
        classify_spec(x).rank_spec() <= classify_spec(y).rank_spec(),
{
}

/// The boundary rule: exactly one kibibyte is still counted in bytes, one
/// byte more is a kibibyte.
pub proof fn lemma_classify_boundary()
    ensures
        classify_spec(1024) == SizeClass::B,
        classify_spec(1025) == SizeClass::KiB,
{
}

} // verus!
