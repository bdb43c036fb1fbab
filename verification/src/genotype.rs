//! The closed four-way genotype code and its two-bit packing.

use vstd::prelude::*;

verus! {

/// One sample's call at one variant.
#[derive(Clone, Copy, Debug, PartialEq, Eq, Structural)]
pub enum GenotypeCode {
    HomozygousRef,
    Heterozygous,
    HomozygousAlt,
    Missing,
}

/// The two bits that sample slot `slot` (0 to 3) occupies in `byte`: slot
/// `k` holds bits `2k` and `2k + 1`, least significant pair first.
pub open spec fn pair_bits(byte: u8, slot: u8) -> u8 {
    (byte >> (2 * slot) as u8) & 3u8
}

impl GenotypeCode {
    /// The code that a two-bit value stands for.
    pub open spec fn of_bits(bits: u8) -> GenotypeCode {
        if bits == 0 {
            GenotypeCode::HomozygousRef
        } else if bits == 1 {
            GenotypeCode::Heterozygous
        } else if bits == 2 {
            GenotypeCode::HomozygousAlt
        } else {
            GenotypeCode::Missing
        }
    }

    /// The two-bit value that stands for a code.
    pub open spec fn bits(self) -> u8 {
        match self {
            GenotypeCode::HomozygousRef => 0,
            GenotypeCode::Heterozygous => 1,
            GenotypeCode::HomozygousAlt => 2,
            GenotypeCode::Missing => 3,
        }
    }

    /// The text of a code in a variant-call line.
    pub open spec fn vcf_text(self) -> Seq<char> {
        match self {
            GenotypeCode::HomozygousRef => seq!['0', '/', '0'],
            GenotypeCode::Heterozygous => seq!['0', '/', '1'],
            GenotypeCode::HomozygousAlt => seq!['1', '/', '1'],
            GenotypeCode::Missing => seq!['.', '/', '.'],
        }
    }

    /// Maps a two-bit value to its code. A value above 3 cannot come out of
    /// a two-bit mask, so it is excluded rather than reported.
    pub fn from_bits(bits: u8) -> (code: GenotypeCode)
        requires
            bits <= 3,
        ensures
            code == GenotypeCode::of_bits(bits),
            code.bits() == bits,
    {
        if bits == 0 {
            GenotypeCode::HomozygousRef
        } else if bits == 1 {
            GenotypeCode::Heterozygous
        } else if bits == 2 {
            GenotypeCode::HomozygousAlt
        } else {
            GenotypeCode::Missing
        }
    }

    /// Decodes the sample in slot `slot` of a packed byte.
    pub fn from_packed(byte: u8, slot: u8) -> (code: GenotypeCode)
        requires
            slot <= 3,
        ensures
            code == GenotypeCode::of_bits(pair_bits(byte, slot)),
    {
        let shift: u8 = 2 * slot;
        let bits: u8 = (byte >> shift) & 3u8;
        assert(bits <= 3) by (bit_vector)
            requires
                bits == (byte >> shift) & 3u8,
        ;
        GenotypeCode::from_bits(bits)
    }

    /// Renders a code as `0/0`, `0/1`, `1/1` or `./.`.
    pub fn as_vcf(&self) -> (text: &'static str)
        ensures
            text@ == self.vcf_text(),
    {
        proof {
            reveal_strlit("0/0");
            reveal_strlit("0/1");
            reveal_strlit("1/1");
            reveal_strlit("./.");
        }
        let text = match self {
            GenotypeCode::HomozygousRef => "0/0",
            GenotypeCode::Heterozygous => "0/1",
            GenotypeCode::HomozygousAlt => "1/1",
            GenotypeCode::Missing => "./.",
        };
        assert(text@ =~= self.vcf_text());
        text
    }
}

/// The bit table is exhaustive and one to one: the four two-bit values map
/// to the four codes in order, and each code maps back to its value.
pub proof fn lemma_bit_table()
    ensures
        GenotypeCode::of_bits(0) == GenotypeCode::HomozygousRef,
        GenotypeCode::of_bits(1) == GenotypeCode::Heterozygous,
        GenotypeCode::of_bits(2) == GenotypeCode::HomozygousAlt,
        GenotypeCode::of_bits(3) == GenotypeCode::Missing,
        forall|b: u8| b <= 3 ==> #[trigger] GenotypeCode::of_bits(b).bits() == b,
        forall|c: GenotypeCode| GenotypeCode::of_bits(#[trigger] c.bits()) == c,
        forall|byte: u8, slot: u8| slot <= 3 ==> #[trigger] pair_bits(byte, slot) <= 3,
{
    assert forall|byte: u8, slot: u8| slot <= 3 implies #[trigger] pair_bits(byte, slot) <= 3 by {
        assert(((byte >> (2 * slot) as u8) & 3u8) <= 3) by (bit_vector);
    }
}

} // verus!
