//! The chemical elements that formulas may name, with their standard atomic weights.

use vstd::prelude::*;

use crate::arithmetic::{from_integer, lawful, over, Arithmetic, Machine, Numerals};
use crate::text::{chars_of, is_text};

verus! {

/// The standard atomic weight of an element as a fraction, in grams per mole.
pub open spec fn weight_fraction(element: Seq<char>) -> Option<(u64, u64)> {
    if element == "H"@ {
        Some((1_008, 1_000))
    } else if element == "He"@ {
        Some((4_002_602, 1_000_000))
    } else if element == "Li"@ {
        Some((694, 100))
    } else if element == "Be"@ {
        Some((90_121_831, 10_000_000))
    } else if element == "B"@ {
        Some((1_081, 100))
    } else if element == "C"@ {
        Some((12_011, 1_000))
    } else if element == "N"@ {
        Some((14_007, 1_000))
    } else if element == "O"@ {
        Some((15_999, 1_000))
    } else if element == "F"@ {
        Some((18_998_403_163, 1_000_000_000))
    } else if element == "Ne"@ {
        Some((201_797, 10_000))
    } else if element == "Na"@ {
        Some((2_298_976_928, 100_000_000))
    } else if element == "Mg"@ {
        Some((24_305, 1_000))
    } else if element == "Al"@ {
        Some((269_815_385, 10_000_000))
    } else if element == "Si"@ {
        Some((28_085, 1_000))
    } else if element == "P"@ {
        Some((30_973_761_998, 1_000_000_000))
    } else if element == "S"@ {
        Some((3_206, 100))
    } else if element == "Cl"@ {
        Some((3_545, 100))
    } else if element == "Ar"@ {
        Some((39_948, 1_000))
    } else if element == "K"@ {
        Some((390_983, 10_000))
    } else if element == "Ca"@ {
        Some((40_078, 1_000))
    } else if element == "Sc"@ {
        Some((44_955_908, 1_000_000))
    } else if element == "Ti"@ {
        Some((47_867, 1_000))
    } else if element == "V"@ {
        Some((509_415, 10_000))
    } else if element == "Cr"@ {
        Some((519_961, 10_000))
    } else if element == "Mn"@ {
        Some((54_938_044, 1_000_000))
    } else if element == "Fe"@ {
        Some((55_845, 1_000))
    } else if element == "Co"@ {
        Some((58_933_194, 1_000_000))
    } else if element == "Ni"@ {
        Some((586_934, 10_000))
    } else if element == "Cu"@ {
        Some((63_546, 1_000))
    } else if element == "Zn"@ {
        Some((6_538, 100))
    } else if element == "Ga"@ {
        Some((69_723, 1_000))
    } else if element == "Ge"@ {
        Some((7_263, 100))
    } else if element == "As"@ {
        Some((74_921_595, 1_000_000))
    } else if element == "Se"@ {
        Some((78_971, 1_000))
    } else if element == "Br"@ {
        Some((79_904, 1_000))
    } else if element == "Kr"@ {
        Some((83_798, 1_000))
    } else if element == "Rb"@ {
        Some((854_678, 10_000))
    } else if element == "Sr"@ {
        Some((8_762, 100))
    } else if element == "Y"@ {
        Some((8_890_584, 100_000))
    } else if element == "Zr"@ {
        Some((91_224, 1_000))
    } else if element == "Nb"@ {
        Some((9_290_637, 100_000))
    } else if element == "Mo"@ {
        Some((9_595, 100))
    } else if element == "Ru"@ {
        Some((10_107, 100))
    } else if element == "Rh"@ {
        Some((1_029_055, 10_000))
    } else if element == "Pd"@ {
        Some((10_642, 100))
    } else if element == "Ag"@ {
        Some((1_078_682, 10_000))
    } else if element == "Cd"@ {
        Some((112_414, 1_000))
    } else if element == "In"@ {
        Some((114_818, 1_000))
    } else if element == "Sn"@ {
        Some((11_871, 100))
    } else if element == "Sb"@ {
        Some((12_176, 100))
    } else if element == "Te"@ {
        Some((1_276, 10))
    } else if element == "I"@ {
        Some((12_690_447, 100_000))
    } else if element == "Cs"@ {
        Some((13_290_545_196, 100_000_000))
    } else if element == "Ba"@ {
        Some((137_327, 1_000))
    } else if element == "La"@ {
        Some((13_890_547, 100_000))
    } else if element == "Ce"@ {
        Some((140_116, 1_000))
    } else if element == "Pr"@ {
        Some((14_090_766, 100_000))
    } else if element == "Nd"@ {
        Some((144_242, 1_000))
    } else if element == "Sm"@ {
        Some((15_036, 100))
    } else if element == "Eu"@ {
        Some((151_964, 1_000))
    } else if element == "Gd"@ {
        Some((15_725, 100))
    } else if element == "Tb"@ {
        Some((15_892_535, 100_000))
    } else if element == "Dy"@ {
        Some((1_625, 10))
    } else if element == "Ho"@ {
        Some((16_493_033, 100_000))
    } else if element == "Er"@ {
        Some((167_259, 1_000))
    } else if element == "Tm"@ {
        Some((16_893_422, 100_000))
    } else if element == "Yb"@ {
        Some((173_045, 1_000))
    } else if element == "Lu"@ {
        Some((1_749_668, 10_000))
    } else if element == "Hf"@ {
        Some((17_849, 100))
    } else if element == "Ta"@ {
        Some((18_094_788, 100_000))
    } else if element == "W"@ {
        Some((18_384, 100))
    } else if element == "Re"@ {
        Some((186_207, 1_000))
    } else if element == "Os"@ {
        Some((19_023, 100))
    } else if element == "Ir"@ {
        Some((192_217, 1_000))
    } else if element == "Pt"@ {
        Some((195_084, 1_000))
    } else if element == "Au"@ {
        Some((196_966_569, 1_000_000))
    } else if element == "Hg"@ {
        Some((200_592, 1_000))
    } else if element == "Tl"@ {
        Some((20_438, 100))
    } else if element == "Pb"@ {
        Some((2_072, 10))
    } else if element == "Bi"@ {
        Some((2_089_804, 10_000))
    } else if element == "Th"@ {
        Some((2_320_377, 10_000))
    } else if element == "U"@ {
        Some((23_802_891, 100_000))
    } else {
        None
    }
}

/// The standard atomic weight of an element, in grams per mole.
pub open spec fn weight_of<M: Numerals>(element: Seq<char>) -> Option<M::Number> {
    match weight_fraction(element) {
        Some((numerator, denominator)) => Some(
            M::quotient(M::integer(numerator), M::integer(denominator)),
        ),
        None => None,
    }
}

fn find_weight_fraction(element: &str) -> (r: Option<(u64, u64)>)
    ensures
        r == weight_fraction(element@),
{
    let chars: Vec<char> = chars_of(element);
    if is_text(&chars, "H") {
        Some((1_008, 1_000))
    } else if is_text(&chars, "He") {
        Some((4_002_602, 1_000_000))
    } else if is_text(&chars, "Li") {
        Some((694, 100))
    } else if is_text(&chars, "Be") {
        Some((90_121_831, 10_000_000))
    } else if is_text(&chars, "B") {
        Some((1_081, 100))
    } else if is_text(&chars, "C") {
        Some((12_011, 1_000))
    } else if is_text(&chars, "N") {
        Some((14_007, 1_000))
    } else if is_text(&chars, "O") {
        Some((15_999, 1_000))
    } else if is_text(&chars, "F") {
        Some((18_998_403_163, 1_000_000_000))
    } else if is_text(&chars, "Ne") {
        Some((201_797, 10_000))
    } else if is_text(&chars, "Na") {
        Some((2_298_976_928, 100_000_000))
    } else if is_text(&chars, "Mg") {
        Some((24_305, 1_000))
    } else if is_text(&chars, "Al") {
        Some((269_815_385, 10_000_000))
    } else if is_text(&chars, "Si") {
        Some((28_085, 1_000))
    } else if is_text(&chars, "P") {
        Some((30_973_761_998, 1_000_000_000))
    } else if is_text(&chars, "S") {
        Some((3_206, 100))
    } else if is_text(&chars, "Cl") {
        Some((3_545, 100))
    } else if is_text(&chars, "Ar") {
        Some((39_948, 1_000))
    } else if is_text(&chars, "K") {
        Some((390_983, 10_000))
    } else if is_text(&chars, "Ca") {
        Some((40_078, 1_000))
    } else if is_text(&chars, "Sc") {
        Some((44_955_908, 1_000_000))
    } else if is_text(&chars, "Ti") {
        Some((47_867, 1_000))
    } else if is_text(&chars, "V") {
        Some((509_415, 10_000))
    } else if is_text(&chars, "Cr") {
        Some((519_961, 10_000))
    } else if is_text(&chars, "Mn") {
        Some((54_938_044, 1_000_000))
    } else if is_text(&chars, "Fe") {
        Some((55_845, 1_000))
    } else if is_text(&chars, "Co") {
        Some((58_933_194, 1_000_000))
    } else if is_text(&chars, "Ni") {
        Some((586_934, 10_000))
    } else if is_text(&chars, "Cu") {
        Some((63_546, 1_000))
    } else if is_text(&chars, "Zn") {
        Some((6_538, 100))
    } else if is_text(&chars, "Ga") {
        Some((69_723, 1_000))
    } else if is_text(&chars, "Ge") {
        Some((7_263, 100))
    } else if is_text(&chars, "As") {
        Some((74_921_595, 1_000_000))
    } else if is_text(&chars, "Se") {
        Some((78_971, 1_000))
    } else if is_text(&chars, "Br") {
        Some((79_904, 1_000))
    } else if is_text(&chars, "Kr") {
        Some((83_798, 1_000))
    } else if is_text(&chars, "Rb") {
        Some((854_678, 10_000))
    } else if is_text(&chars, "Sr") {
        Some((8_762, 100))
    } else if is_text(&chars, "Y") {
        Some((8_890_584, 100_000))
    } else if is_text(&chars, "Zr") {
        Some((91_224, 1_000))
    } else if is_text(&chars, "Nb") {
        Some((9_290_637, 100_000))
    } else if is_text(&chars, "Mo") {
        Some((9_595, 100))
    } else if is_text(&chars, "Ru") {
        Some((10_107, 100))
    } else if is_text(&chars, "Rh") {
        Some((1_029_055, 10_000))
    } else if is_text(&chars, "Pd") {
        Some((10_642, 100))
    } else if is_text(&chars, "Ag") {
        Some((1_078_682, 10_000))
    } else if is_text(&chars, "Cd") {
        Some((112_414, 1_000))
    } else if is_text(&chars, "In") {
        Some((114_818, 1_000))
    } else if is_text(&chars, "Sn") {
        Some((11_871, 100))
    } else if is_text(&chars, "Sb") {
        Some((12_176, 100))
    } else if is_text(&chars, "Te") {
        Some((1_276, 10))
    } else if is_text(&chars, "I") {
        Some((12_690_447, 100_000))
    } else if is_text(&chars, "Cs") {
        Some((13_290_545_196, 100_000_000))
    } else if is_text(&chars, "Ba") {
        Some((137_327, 1_000))
    } else if is_text(&chars, "La") {
        Some((13_890_547, 100_000))
    } else if is_text(&chars, "Ce") {
        Some((140_116, 1_000))
    } else if is_text(&chars, "Pr") {
        Some((14_090_766, 100_000))
    } else if is_text(&chars, "Nd") {
        Some((144_242, 1_000))
    } else if is_text(&chars, "Sm") {
        Some((15_036, 100))
    } else if is_text(&chars, "Eu") {
        Some((151_964, 1_000))
    } else if is_text(&chars, "Gd") {
        Some((15_725, 100))
    } else if is_text(&chars, "Tb") {
        Some((15_892_535, 100_000))
    } else if is_text(&chars, "Dy") {
        Some((1_625, 10))
    } else if is_text(&chars, "Ho") {
        Some((16_493_033, 100_000))
    } else if is_text(&chars, "Er") {
        Some((167_259, 1_000))
    } else if is_text(&chars, "Tm") {
        Some((16_893_422, 100_000))
    } else if is_text(&chars, "Yb") {
        Some((173_045, 1_000))
    } else if is_text(&chars, "Lu") {
        Some((1_749_668, 10_000))
    } else if is_text(&chars, "Hf") {
        Some((17_849, 100))
    } else if is_text(&chars, "Ta") {
        Some((18_094_788, 100_000))
    } else if is_text(&chars, "W") {
        Some((18_384, 100))
    } else if is_text(&chars, "Re") {
        Some((186_207, 1_000))
    } else if is_text(&chars, "Os") {
        Some((19_023, 100))
    } else if is_text(&chars, "Ir") {
        Some((192_217, 1_000))
    } else if is_text(&chars, "Pt") {
        Some((195_084, 1_000))
    } else if is_text(&chars, "Au") {
        Some((196_966_569, 1_000_000))
    } else if is_text(&chars, "Hg") {
        Some((200_592, 1_000))
    } else if is_text(&chars, "Tl") {
        Some((20_438, 100))
    } else if is_text(&chars, "Pb") {
        Some((2_072, 10))
    } else if is_text(&chars, "Bi") {
        Some((2_089_804, 10_000))
    } else if is_text(&chars, "Th") {
        Some((2_320_377, 10_000))
    } else if is_text(&chars, "U") {
        Some((23_802_891, 100_000))
    } else {
        None
    }
}

/// The standard atomic weight of an element, if there is such an element.
pub fn atomic_weight<A: Arithmetic>(element: &str) -> (r: Option<A::Number>)
    requires
        lawful::<A>(),
    ensures
        r == weight_of::<Machine<A>>(element@),
{
    match find_weight_fraction(element) {
        Some((numerator, denominator)) => Some(
            over::<A>(from_integer::<A>(numerator), from_integer::<A>(denominator)),
        ),
        None => None,
    }
}

} // verus!
