use vstd::prelude::*;

verus! {

/// The length of `data` after compression with FastLZ.
pub uninterp spec fn flz_length(data: Seq<u8>) -> u32;

/// The size in bytes that a transaction is estimated to take up in a batch, from the length
/// of its encoding after compression: `max(100, (836_500 * length - 42_585_600) / 1_000_000)`,
/// rounded down.
pub open spec fn estimated_size(length: u32) -> nat {
    let scaled = 836_500 * length - 42_585_600;
    (if scaled < 100_000_000 {
        100
    } else {
        scaled / 1_000_000
    }) as nat
}

/// The size in bytes that a transaction with this encoding is estimated to take up in a batch.
pub open spec fn size_of(encoded: Seq<u8>) -> u64 {
    estimated_size(flz_length(encoded)) as u64
}

/// The length from which on an encoding is too long to be sized.
pub const ENCODING_LIMIT: usize = 0x8000_0000;

/// `op_alloy_flz::tx_estimated_size_fjord_bytes`: the linear estimate over the compressed
/// length, with a minimum of 100 bytes. The compressed length itself, a matter of
/// the FastLZ matcher, is only named. It is computed in 32-bit arithmetic, which an
/// encoding below the limit cannot overflow.
#[verifier::external_body]
pub(crate) fn fjord_bytes(encoded: &Vec<u8>) -> (r: u64)
    requires
        encoded@.len() < ENCODING_LIMIT,
    ensures
        r == estimated_size(flz_length(encoded@)),
{
    op_alloy_flz::tx_estimated_size_fjord_bytes(encoded)
}

/// Some sizes added up.
pub open spec fn sum(sizes: Seq<u64>) -> nat
    decreases sizes.len(),
{
    if sizes.len() == 0 {
        0
    } else {
        sum(sizes.drop_last()) + sizes.last() as nat
    }
}

/// The sizes of the transactions of a bundle.
pub open spec fn sizes_of(encoded: Seq<Vec<u8>>) -> Seq<u64> {
    encoded.map_values(|tx: Vec<u8>| size_of(tx@))
}

/// What the transactions of a bundle take up together.
pub open spec fn total_size(encoded: Seq<Vec<u8>>) -> nat {
    sum(sizes_of(encoded))
}

/// Whether every transaction of a bundle can be sized, and the sum of the sizes is sure to fit
/// in 64 bits.
pub open spec fn sizable(encoded: Seq<Vec<u8>>) -> bool {
    &&& encoded.len() <= u32::MAX
    &&& forall|i: int| 0 <= i < encoded.len() ==> (#[trigger] encoded[i])@.len() < ENCODING_LIMIT
}

proof fn lemma_sum_grows(sizes: Seq<u64>, n: int)
    requires
        0 <= n <= sizes.len(),
    ensures
        sum(sizes.take(n)) <= sum(sizes),
    decreases sizes.len(),
{
    if n == sizes.len() {
        assert(sizes.take(n) =~= sizes);
    } else {
        lemma_sum_grows(sizes.drop_last(), n);
        assert(sizes.drop_last().take(n) =~= sizes.take(n));
    }
}

proof fn lemma_total_bounded(encoded: Seq<Vec<u8>>)
    ensures
        total_size(encoded) <= encoded.len() * 3_600_000_000,
    decreases encoded.len(),
{
    if encoded.len() > 0 {
        lemma_total_bounded(encoded.drop_last());
        assert(sizes_of(encoded).drop_last() =~= sizes_of(encoded.drop_last()));
    }
}

/// Adds some sizes up.
pub fn sum_sizes(sizes: &Vec<u64>) -> (r: u64)
    requires
        sum(sizes@) <= u64::MAX,
    ensures
        r == sum(sizes@),
{
    let mut r: u64 = 0;
    let mut i: usize = 0;
    while i < sizes.len()
        invariant
            i <= sizes.len(),
            sum(sizes@) <= u64::MAX,
            r == sum(sizes@.take(i as int)),
        decreases sizes.len() - i,
    {
        proof {
            assert(sizes@.take(i + 1).drop_last() =~= sizes@.take(i as int));
            lemma_sum_grows(sizes@, i + 1);
        }
        r += sizes[i];
        i += 1;
    }
    assert(sizes@.take(i as int) =~= sizes@);
    r
}

/// Adds up the estimated sizes of the transactions of a bundle.
pub fn bundle_da_usage(encoded: &Vec<Vec<u8>>) -> (r: u64)
    requires
        sizable(encoded@),
    ensures
        r == total_size(encoded@),
{
    let mut sizes: Vec<u64> = Vec::new();
    let mut i: usize = 0;
    while i < encoded.len()
        invariant
            i <= encoded.len(),
            sizable(encoded@),
            sizes@ == sizes_of(encoded@).take(i as int),
        decreases encoded.len() - i,
    {
        sizes.push(fjord_bytes(&encoded[i]));
        i += 1;
        assert(sizes@ =~= sizes_of(encoded@).take(i as int));
    }
    proof {
        assert(sizes@ =~= sizes_of(encoded@));
        lemma_total_bounded(encoded@);
    }
    sum_sizes(&sizes)
}

/// A transaction is taken to need no less than 100 bytes, and no less than one that compresses
/// to fewer bytes.
pub proof fn law_estimated_size(shorter: u32, longer: u32)
    requires
        shorter <= longer,
    ensures
        100 <= estimated_size(shorter) <= estimated_size(longer),
{
}

/// A bundle needs no less than 100 bytes for each of its transactions, and nothing where it
/// has none.
pub proof fn law_total_size(encoded: Seq<Vec<u8>>)
    ensures
        total_size(encoded) >= 100 * encoded.len(),
        encoded.len() == 0 ==> total_size(encoded) == 0,
    decreases encoded.len(),
{
    if encoded.len() > 0 {
        law_total_size(encoded.drop_last());
        assert(sizes_of(encoded).drop_last() =~= sizes_of(encoded.drop_last()));
    }
}

} // verus!
