use crate::foreign::{char_alphanumeric, char_is_alphanumeric, char_is_uppercase, char_uppercase};
use vstd::prelude::*;
use vstd::string::StrSliceExecFns;

verus! {

/// A plant that grows through stages.
pub struct Foliage {
    /// Important: This should be lowercased, and should match the
    /// directory of the texture in the assets folder. E.g "tree"
    name: String,
    stage: u32,
    max_stage: u32,
    /// Each foliage update tick (e.g every second) has this chance, in
    /// percent, to grow the foliage.
    growth_chance_percent: u32,
}

/// What a growth tick did to a foliage.
#[derive(Clone, Copy, PartialEq, Eq, Structural, Debug)]
pub enum GrowthAction {
    /// The growth roll failed; nothing changed.
    Skipped,
    /// The foliage grew one stage and can grow further.
    Grew,
    /// The foliage grew to its last stage: fully grown now.
    GrewFully,
    /// The foliage was at its last stage already and will not grow any more.
    FullyGrown,
}

/// A valid foliage name: not empty, no uppercase letter, and every character
/// alphanumeric or an underscore (such as "tree" or "oak_tree2").
pub open spec fn valid_foliage_name(name: Seq<char>) -> bool {
    &&& name.len() > 0
    &&& forall|i: int| 0 <= i < name.len() ==> !#[trigger] char_uppercase(name[i])
    &&& forall|i: int| 0 <= i < name.len() ==> #[trigger] char_alphanumeric(name[i]) || name[i] == '_'
}

impl Foliage {
    pub closed spec fn spec_name(&self) -> Seq<char> {
        self.name@
    }

    pub closed spec fn spec_stage(&self) -> u32 {
        self.stage
    }

    pub closed spec fn spec_max_stage(&self) -> u32 {
        self.max_stage
    }

    pub closed spec fn spec_growth_chance_percent(&self) -> u32 {
        self.growth_chance_percent
    }

    /// A growing foliage at `stage` of `max_stage`, with a 2% chance to grow
    /// each tick. The name must be valid.
    pub fn new(name: &str, stage: u32, max_stage: u32) -> (r: Self)
        requires
            valid_foliage_name(name@),
        ensures
            r.spec_name() == name@,
            r.spec_stage() == stage,
            r.spec_max_stage() == max_stage,
            r.spec_growth_chance_percent() == 2,
    {
        Foliage { stage, max_stage, name: Self::parse_name(name), growth_chance_percent: 2 }
    }

    /// A tree: the growing foliage "tree", from stage 0 up to its last stage 3.
    pub fn tree() -> (r: Self)
        ensures
            r.spec_name() == "tree"@,
            r.spec_stage() == 0,
            r.spec_max_stage() == 3,
            r.spec_growth_chance_percent() == 2,
    {
        proof {
            reveal_strlit("tree");
            let name = "tree"@;
            assert forall|i: int| 0 <= i < name.len() implies !#[trigger] char_uppercase(name[i])
                && (char_alphanumeric(name[i]) || name[i] == '_') by {
                assert(name[i] == 't' || name[i] == 'r' || name[i] == 'e');
            }
        }
        Self::new("tree", 0, 3)
    }

    /// Create a new foliage that doesn't grow. The name must be valid.
    pub fn new_static(name: &str) -> (r: Self)
        requires
            valid_foliage_name(name@),
        ensures
            r.spec_name() == name@,
            r.spec_stage() == 0,
            r.spec_max_stage() == 0,
            r.spec_growth_chance_percent() == 0,
    {
        Foliage { stage: 0, max_stage: 0, name: Self::parse_name(name), growth_chance_percent: 0 }
    }

    /// A growing foliage as `new` builds it, or `None` when the name is not valid.
    pub fn try_new(name: &str, stage: u32, max_stage: u32) -> (r: Option<Self>)
        ensures
            r is Some <==> valid_foliage_name(name@),
            r matches Some(f) ==> f.spec_name() == name@ && f.spec_stage() == stage
                && f.spec_max_stage() == max_stage && f.spec_growth_chance_percent() == 2,
    {
        if Self::is_valid_name(name) {
            Some(Self::new(name, stage, max_stage))
        } else {
            None
        }
    }

    /// Won't exceed `max_stage`. Returns `true` if the foliage has grown.
    pub fn grow(&mut self) -> (r: bool)
        ensures
            r == (old(self).spec_stage() < old(self).spec_max_stage()),
            final(self).spec_stage() == (if r { old(self).spec_stage() + 1 } else { old(self).spec_stage() as int }),
            final(self).spec_max_stage() == old(self).spec_max_stage(),
            final(self).spec_name() == old(self).spec_name(),
            final(self).spec_growth_chance_percent() == old(self).spec_growth_chance_percent(),
            old(self).spec_stage() <= old(self).spec_max_stage() ==> final(self).spec_stage() <= final(self).spec_max_stage(),
    {
        if self.stage < self.max_stage {
            self.stage = self.stage + 1;
            return true;
        }

        false
    }

    /// One periodic growth tick. When the growth roll failed nothing happens;
    /// otherwise the foliage grows a stage (its texture must then change) and
    /// is reported fully grown when that stage is its last, or, when it is at
    /// its last stage already, it is reported fully grown without change.
    /// A fully grown foliage stops taking part in growth ticks.
    pub fn growth_tick(&mut self, roll_succeeded: bool) -> (r: GrowthAction)
        ensures
            !roll_succeeded ==> r == GrowthAction::Skipped && *final(self) == *old(self),
            roll_succeeded && old(self).spec_stage() + 1 < old(self).spec_max_stage() ==> r == GrowthAction::Grew,
            roll_succeeded && old(self).spec_stage() + 1 == old(self).spec_max_stage() ==> r == GrowthAction::GrewFully,
            roll_succeeded && old(self).spec_stage() >= old(self).spec_max_stage() ==> r == GrowthAction::FullyGrown,
            final(self).spec_stage() == (if r == GrowthAction::Grew || r == GrowthAction::GrewFully {
                old(self).spec_stage() + 1
            } else {
                old(self).spec_stage() as int
            }),
            final(self).spec_max_stage() == old(self).spec_max_stage(),
            final(self).spec_name() == old(self).spec_name(),
            final(self).spec_growth_chance_percent() == old(self).spec_growth_chance_percent(),
    {
        if !roll_succeeded {
            return GrowthAction::Skipped;
        }
        if self.grow() {
            if self.stage == self.max_stage {
                GrowthAction::GrewFully
            } else {
                GrowthAction::Grew
            }
        } else {
            GrowthAction::FullyGrown
        }
    }

    pub fn stage(&self) -> (r: u32)
        ensures
            r == self.spec_stage(),
    {
        self.stage
    }

    pub fn max_stage(&self) -> (r: u32)
        ensures
            r == self.spec_max_stage(),
    {
        self.max_stage
    }

    /// The name, which names the texture directory of this foliage.
    pub fn name(&self) -> (r: &str)
        ensures
            r@ == self.spec_name(),
    {
        self.name.as_str()
    }

    /// The chance, in percent, that a growth tick grows this foliage.
    pub fn growth_chance_percent(&self) -> (r: u32)
        ensures
            r == self.spec_growth_chance_percent(),
    {
        self.growth_chance_percent
    }

    /// Whether `name` is a valid foliage name.
    pub fn is_valid_name(name: &str) -> (r: bool)
        ensures
            r == valid_foliage_name(name@),
    {
        let n = name.unicode_len();
        if n == 0 {
            return false;
        }
        let mut i: usize = 0;
        while i < n
            invariant
                i <= n,
                n == name@.len(),
                forall|j: int| 0 <= j < i ==> !#[trigger] char_uppercase(name@[j]),
                forall|j: int| 0 <= j < i ==> #[trigger] char_alphanumeric(name@[j]) || name@[j] == '_',
            decreases n - i,
        {
            let c = name.get_char(i);
            if char_is_uppercase(c) {
                proof {
                    assert(char_uppercase(name@[i as int]));
                }
                return false;
            }
            if !(char_is_alphanumeric(c) || c == '_') {
                proof {
                    assert(!(char_alphanumeric(name@[i as int]) || name@[i as int] == '_'));
                }
                return false;
            }
            i = i + 1;
        }
        true
    }

    /// The name as an owned string; a valid name is required, as the game
    /// stops on an invalid one.
    fn parse_name(name: &str) -> (r: String)
        requires
            valid_foliage_name(name@),
        ensures
            r@ == name@,
    {
        name.to_owned()
    }
}

/// The bytes of the file extension ".png".
pub open spec fn png_suffix() -> Seq<u8> {
    seq![46u8, 112u8, 110u8, 103u8]
}

pub open spec fn is_ascii_digit(b: u8) -> bool {
    48 <= b <= 57
}

/// The value of a string of decimal digits.
pub open spec fn decimal_value(ds: Seq<u8>) -> nat
    decreases ds.len(),
{
    if ds.len() == 0 {
        0
    } else {
        decimal_value(ds.drop_last()) * 10 + (ds.last() - 48) as nat
    }
}

/// The bytes after an optional leading `+`.
pub open spec fn unsigned_digits(bs: Seq<u8>) -> Seq<u8> {
    if bs.len() > 0 && bs[0] == 43u8 {
        bs.skip(1)
    } else {
        bs
    }
}

pub open spec fn all_digits(ds: Seq<u8>) -> bool {
    forall|i: int| 0 <= i < ds.len() ==> is_ascii_digit(#[trigger] ds[i])
}

/// What `u32::from_str` gives for these bytes: an optional `+`, then one or
/// more decimal digits whose value fits in a `u32`.
pub open spec fn parse_u32(bs: Seq<u8>) -> Option<u32> {
    let digits = unsigned_digits(bs);
    if digits.len() > 0 && all_digits(digits) && decimal_value(digits) <= u32::MAX {
        Some(decimal_value(digits) as u32)
    } else {
        None
    }
}

/// The growth stage that a texture file name encodes, e.g. 2 for "02.png":
/// the name must end in ".png" and what comes before must be a `u32`.
pub open spec fn stage_of_filename(bs: Seq<u8>) -> Option<u32> {
    if bs.len() >= 4 && bs.skip(bs.len() - 4) == png_suffix() {
        parse_u32(bs.take(bs.len() - 4))
    } else {
        None
    }
}

proof fn lemma_decimal_value_push(ds: Seq<u8>, d: u8)
    ensures
        decimal_value(ds.push(d)) == decimal_value(ds) * 10 + (d - 48) as nat,
{
    assert(ds.push(d).drop_last() =~= ds);
}

/// Extracts the stage number from the bytes of a texture file name
/// (e.g., "00.png" -> 0).
pub fn parse_stage_filename(filename: &[u8]) -> (r: Option<u32>)
    ensures
        r == stage_of_filename(filename@),
{
    let bytes = filename;
    let len = bytes.len();
    if len < 4 || bytes[len - 4] != 46u8 || bytes[len - 3] != 112u8 || bytes[len - 2] != 110u8 || bytes[len - 1] != 103u8 {
        proof {
            if len >= 4 {
                let suffix = bytes@.skip(len - 4);
                if suffix == png_suffix() {
                    assert(suffix[0] == bytes@[len - 4]);
                    assert(suffix[1] == bytes@[len - 3]);
                    assert(suffix[2] == bytes@[len - 2]);
                    assert(suffix[3] == bytes@[len - 1]);
                }
            }
        }
        return None;
    }
    proof {
        assert(bytes@.skip(len - 4) =~= png_suffix());
    }
    let stem_len = len - 4;
    let ghost stem = bytes@.take(stem_len as int);
    let mut start: usize = 0;
    if stem_len > 0 && bytes[0] == 43u8 {
        start = 1;
    }
    let ghost digits = unsigned_digits(stem);
    proof {
        assert(digits =~= stem.skip(start as int));
    }
    if start >= stem_len {
        return None;
    }
    let mut value: u64 = 0;
    let mut i: usize = start;
    while i < stem_len
        invariant
            start <= i <= stem_len,
            bytes@ == filename@,
            stem_len + 4 == bytes@.len(),
            stem == bytes@.take(stem_len as int),
            digits == stem.skip(start as int),
            digits == unsigned_digits(stem),
            stage_of_filename(bytes@) == parse_u32(stem),
            forall|j: int| start <= j < i ==> is_ascii_digit(#[trigger] bytes@[j]),
            value == decimal_value(stem.subrange(start as int, i as int)),
            value <= u32::MAX,
        decreases stem_len - i,
    {
        let b = bytes[i];
        if b < 48u8 || b > 57u8 {
            proof {
                assert(digits[i - start] == b);
                assert(!is_ascii_digit(digits[i - start]));
                assert(!all_digits(digits));
            }
            return None;
        }
        proof {
            assert(stem.subrange(start as int, i + 1) =~= stem.subrange(start as int, i as int).push(b));
            lemma_decimal_value_push(stem.subrange(start as int, i as int), b);
        }
        value = value * 10 + (b - 48u8) as u64;
        assert(value == decimal_value(stem.subrange(start as int, i + 1)));
        if value > 0xffff_ffffu64 {
            proof {
                let all = stem.subrange(start as int, stem_len as int);
                assert(digits =~= all);
                if all_digits(all) {
                    assert(stem.subrange(start as int, i + 1) =~= all.take(i + 1 - start));
                    lemma_decimal_value_grows(stem.subrange(start as int, i + 1), all);
                    assert(decimal_value(digits) > u32::MAX);
                }
            }
            return None;
        }
        i = i + 1;
    }
    proof {
        assert(digits =~= stem.subrange(start as int, stem_len as int));
        assert forall|j: int| 0 <= j < digits.len() implies is_ascii_digit(#[trigger] digits[j]) by {
            assert(digits[j] == bytes@[start + j]);
        }
        assert(all_digits(digits));
    }
    Some(value as u32)
}

/// The decimal digits of `n`, most significant first, without leading zeros.
pub open spec fn decimal_digits(n: nat) -> Seq<u8>
    decreases n,
{
    if n < 10 {
        seq![(48 + n) as u8]
    } else {
        decimal_digits(n / 10).push((48 + n % 10) as u8)
    }
}

/// `k` zero digits.
pub open spec fn zero_digits(k: nat) -> Seq<u8> {
    Seq::new(k, |i: int| 48u8)
}

proof fn lemma_decimal_digits(n: nat)
    ensures
        decimal_digits(n).len() > 0,
        all_digits(decimal_digits(n)),
        decimal_value(decimal_digits(n)) == n,
    decreases n,
{
    if n < 10 {
        assert(decimal_digits(n).drop_last() =~= Seq::<u8>::empty());
        assert(decimal_value(Seq::<u8>::empty()) == 0);
        assert(decimal_digits(n).last() == (48 + n) as u8);
    } else {
        lemma_decimal_digits(n / 10);
        let d = decimal_digits(n / 10);
        lemma_decimal_value_push(d, (48 + n % 10) as u8);
        vstd::arithmetic::div_mod::lemma_fundamental_div_mod(n as int, 10);
        assert(decimal_digits(n) == d.push((48 + n % 10) as u8));
        assert(decimal_value(decimal_digits(n)) == decimal_value(d) * 10 + n % 10);
        assert forall|i: int| 0 <= i < d.push((48 + n % 10) as u8).len() implies is_ascii_digit(#[trigger] d.push((48 + n % 10) as u8)[i]) by {
            if i < d.len() {
                assert(d.push((48 + n % 10) as u8)[i] == d[i]);
            }
        }
    }
}

/// Leading zeros add nothing to the value of a string of digits.
proof fn lemma_leading_zeros(k: nat, ds: Seq<u8>)
    ensures
        decimal_value(zero_digits(k) + ds) == decimal_value(ds),
    decreases ds.len() + k,
{
    if ds.len() > 0 {
        lemma_leading_zeros(k, ds.drop_last());
        assert((zero_digits(k) + ds).drop_last() =~= zero_digits(k) + ds.drop_last());
    } else if k > 0 {
        lemma_leading_zeros((k - 1) as nat, ds);
        assert((zero_digits(k) + ds).drop_last() =~= zero_digits((k - 1) as nat) + ds);
        assert(zero_digits((k - 1) as nat) + ds =~= zero_digits((k - 1) as nat));
        assert(zero_digits(k) + ds =~= zero_digits(k));
    } else {
        assert(zero_digits(k) + ds =~= Seq::<u8>::empty());
    }
}

/// A stage texture named by the stage number in decimal, with any number of
/// leading zeros, and ".png" (such as "02.png" or "2.png") gives that stage back.
pub proof fn law_stage_filename_roundtrip(stage: u32, zeros: nat)
    ensures
        stage_of_filename(zero_digits(zeros) + decimal_digits(stage as nat) + png_suffix()) == Some(stage),
{
    let d = decimal_digits(stage as nat);
    let stem = zero_digits(zeros) + d;
    let bs = stem + png_suffix();
    lemma_decimal_digits(stage as nat);
    lemma_leading_zeros(zeros, d);
    assert(bs.skip(bs.len() - 4) =~= png_suffix());
    assert(bs.take(bs.len() - 4) =~= stem);
    assert(stem[0] != 43u8) by {
        if zeros > 0 {
            assert(stem[0] == 48u8);
        } else {
            assert(stem[0] == d[0]);
        }
    }
    assert(unsigned_digits(stem) == stem);
    assert forall|i: int| 0 <= i < stem.len() implies is_ascii_digit(#[trigger] stem[i]) by {
        if i >= zeros {
            assert(stem[i] == d[i - zeros]);
        }
    }
}

/// A longer string of digits is worth at least as much as its prefix.
proof fn lemma_decimal_value_grows(prefix: Seq<u8>, ds: Seq<u8>)
    requires
        prefix.len() <= ds.len(),
        prefix == ds.take(prefix.len() as int),
        forall|j: int| 0 <= j < ds.len() ==> is_ascii_digit(#[trigger] ds[j]),
    ensures
        decimal_value(prefix) <= decimal_value(ds),
    decreases ds.len(),
{
    if prefix.len() < ds.len() {
        let shorter = ds.drop_last();
        assert(prefix =~= shorter.take(prefix.len() as int));
        lemma_decimal_value_grows(prefix, shorter);
    } else {
        assert(prefix =~= ds);
    }
}

} // verus!
