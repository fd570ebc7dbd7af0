//! Cohorts: the endorsers that keep a set of ledgers together, each with its
//! verifying key and, where it produced one, a receipt.

use core::convert::Infallible;
use vstd::prelude::*;

use crate::bytes;
use crate::crypto;
use crate::keys::{Signature, VerifyingKey};

verus! {

/// The SHA-256 digest that identifies a cohort configuration.
pub type ConfigId = [u8; 32];

/// Per-endorser entry: a verifying key plus an optional attached datum.
///
/// The type parameter `R` is the receipt type, typically a signature.
pub struct EndorserData<R> {
    /// Verifying key of the endorser.
    pub endorser_key: VerifyingKey,
    /// Optional attached data. `None` for endorsers that did not produce
    /// a receipt (e.g., because they crashed).
    pub maybe_receipt: Option<R>,
}

impl<R: Copy> Clone for EndorserData<R> {
    fn clone(&self) -> (copy: Self)
        ensures
            copy == *self,
    {
        *self
    }
}

impl<R: Copy> Copy for EndorserData<R> {

}

/// Error returned when constructing a [`CohortData`] with no entries or
/// with keys that are not in strict ascending SEC1-lexicographic order.
#[derive(Debug, Clone, Copy, PartialEq, Eq)]
pub struct InvalidConfigError;

/// The encodings of the keys of some entries, in order.
pub open spec fn keys_of<R>(entries: Seq<EndorserData<R>>) -> Seq<Seq<u8>> {
    entries.map_values(|entry: EndorserData<R>| entry.endorser_key@)
}

/// Whether every key comes before every later one.
pub open spec fn strictly_ascending(keys: Seq<Seq<u8>>) -> bool {
    forall|i: int, j: int| 0 <= i < j < keys.len() ==> bytes::lex_less(keys[i], keys[j])
}

/// Whether `keys` make up a cohort: there is one, and they are in strict
/// ascending order, so that none occurs twice.
pub open spec fn valid_cohort(keys: Seq<Seq<u8>>) -> bool {
    keys.len() > 0 && strictly_ascending(keys)
}

/// The keys one after the other.
pub open spec fn concatenated(keys: Seq<Seq<u8>>) -> Seq<u8>
    decreases keys.len(),
{
    if keys.len() == 0 {
        Seq::empty()
    } else {
        concatenated(keys.drop_last()) + keys.last()
    }
}

/// The ID of the configuration with these keys: SHA-256 of the concatenation.
pub open spec fn config_id_of(keys: Seq<Seq<u8>>) -> Seq<u8> {
    crypto::sha256_digest(concatenated(keys))
}

/// A validated collection of per-endorser entries in strict ascending
/// SEC1-lexicographic key order.
///
/// All endorser keys are present (to match a cohort configuration and to
/// compute the required quorum), though only some endorsers may have produced
/// the attached datum. The order makes keys unique, gives the configuration a
/// canonical ID, and lets a key be found by binary search.
///
/// The key order is established at construction via
/// [`try_new`](CohortData::try_new) and cannot be violated afterward.
pub struct CohortData<R> {
    entries: Vec<EndorserData<R>>,
}

/// A validated cohort configuration: a sorted set of endorser verifying keys.
///
/// [`Infallible`] means that `Option<Infallible>` can only be `None`, so no
/// endorser has any attached data.
pub type CohortConfig = CohortData<Infallible>;

/// Finalization data from a single endorser in the outgoing cohort.
pub type EndorserFinalization = EndorserData<Signature>;

/// Finalization receipts from the outgoing cohort.
pub type CohortFinalization = CohortData<Signature>;

impl<R> View for CohortData<R> {
    type V = Seq<EndorserData<R>>;

    closed spec fn view(&self) -> Seq<EndorserData<R>> {
        self.entries@
    }
}

impl<R> CohortData<R> {
    /// The encodings of the cohort's keys, in order.
    pub open spec fn key_seq(&self) -> Seq<Seq<u8>> {
        keys_of(self@)
    }

    /// The ID of the cohort's configuration.
    pub open spec fn id(&self) -> Seq<u8> {
        config_id_of(self.key_seq())
    }

    /// The keys of every `CohortData` make up a cohort.
    #[verifier::type_invariant]
    pub open spec fn well_formed(self) -> bool {
        valid_cohort(self.key_seq())
    }

    /// Creates a new `CohortData` from endorser entries.
    ///
    /// Returns `Err(InvalidConfigError)` if there are no entries or if the
    /// endorser keys are not in strict ascending SEC1-lexicographic order
    /// (which also implies no duplicates).
    pub fn try_new(entries: Vec<EndorserData<R>>) -> (data: Result<Self, InvalidConfigError>)
        ensures
            data is Ok <==> valid_cohort(keys_of(entries@)),
            data matches Ok(d) ==> d@ == entries@,
    {
        if entries.len() == 0 {
            return Err(InvalidConfigError);
        }
        let ghost keys = keys_of(entries@);
        let mut i: usize = 1;
        while i < entries.len()
            invariant
                1 <= i <= entries@.len(),
                keys == keys_of(entries@),
                forall|j: int, k: int| 0 <= j < k < i ==> bytes::lex_less(keys[j], keys[k]),
            decreases entries@.len() - i,
        {
            let previous = &entries[i - 1].endorser_key;
            let current = &entries[i].endorser_key;
            if !bytes::comes_before(previous.as_bytes(), current.as_bytes()) {
                assert(!bytes::lex_less(keys[i - 1], keys[i as int]));
                return Err(InvalidConfigError);
            }
            proof {
                assert(bytes::lex_less(keys[i - 1], keys[i as int]));
                assert forall|j: int| 0 <= j < i implies bytes::lex_less(
                    keys[j],
                    keys[i as int],
                ) by {
                    if j < i - 1 {
                        bytes::lemma_lex_transitive(keys[j], keys[i - 1], keys[i as int]);
                    }
                }
            }
            i += 1;
        }
        Ok(CohortData { entries })
    }

    /// Returns the endorser entries.
    pub fn endorsers(&self) -> (entries: &[EndorserData<R>])
        ensures
            entries@ == self@,
    {
        self.entries.as_slice()
    }

    /// Returns the endorser verifying keys, in order.
    pub fn keys(&self) -> (keys: Vec<VerifyingKey>)
        ensures
            keys@.len() == self@.len(),
            forall|i: int| 0 <= i < keys@.len() ==> #[trigger] keys@[i] == self@[i].endorser_key,
    {
        let mut keys: Vec<VerifyingKey> = Vec::new();
        let mut i: usize = 0;
        while i < self.entries.len()
            invariant
                i <= self.entries@.len(),
                keys@.len() == i,
                forall|j: int| 0 <= j < i ==> #[trigger] keys@[j] == self.entries@[j].endorser_key,
            decreases self.entries@.len() - i,
        {
            keys.push(self.entries[i].endorser_key);
            i += 1;
        }
        keys
    }

    /// Returns the number of endorsers.
    pub fn len(&self) -> (len: usize)
        ensures
            len == self@.len(),
            len > 0,
    {
        proof {
            use_type_invariant(self);
        }
        self.entries.len()
    }

    /// Returns `true` if the collection contains the given key.
    pub fn contains(&self, key: &VerifyingKey) -> (found: bool)
        ensures
            found == self.key_seq().contains(key@),
    {
        proof {
            use_type_invariant(self);
        }
        let ghost keys = self.key_seq();
        let mut low: usize = 0;
        let mut high: usize = self.entries.len();
        while low < high
            invariant
                low <= high <= self.entries@.len(),
                keys == keys_of(self.entries@),
                strictly_ascending(keys),
                forall|j: int| 0 <= j < low ==> keys[j] != key@,
                forall|j: int| high <= j < keys.len() ==> keys[j] != key@,
            decreases high - low,
        {
            let middle: usize = low + (high - low) / 2;
            let candidate = &self.entries[middle].endorser_key;
            assert(keys[middle as int] == candidate@);
            if bytes::comes_before(candidate.as_bytes(), key.as_bytes()) {
                proof {
                    assert forall|j: int| 0 <= j <= middle implies keys[j] != key@ by {
                        if keys[j] == key@ {
                            if j < middle {
                                bytes::lemma_lex_transitive(
                                    keys[j],
                                    keys[middle as int],
                                    key@,
                                );
                            }
                            bytes::lemma_lex_irreflexive(key@);
                        }
                    }
                }
                low = middle + 1;
            } else if bytes::comes_before(key.as_bytes(), candidate.as_bytes()) {
                proof {
                    assert forall|j: int| middle <= j < keys.len() implies keys[j] != key@ by {
                        if keys[j] == key@ {
                            if middle < j {
                                bytes::lemma_lex_transitive(
                                    key@,
                                    keys[middle as int],
                                    keys[j],
                                );
                            }
                            bytes::lemma_lex_irreflexive(key@);
                        }
                    }
                }
                high = middle;
            } else {
                assert(keys[middle as int] == key@);
                return true;
            }
        }
        false
    }

    /// Returns the config ID: SHA-256 of the concatenated SEC1 bytes.
    pub fn config_id(&self) -> (id: ConfigId)
        ensures
            id@ == self.id(),
    {
        let keys = self.keys();
        assert(encodings(keys@) =~= self.key_seq());
        compute_config_id(keys.as_slice())
    }

    /// Extracts the endorser keys, discarding any attached data.
    pub fn into_config(self) -> (config: CohortConfig)
        ensures
            config.key_seq() == self.key_seq(),
            forall|i: int| 0 <= i < config@.len() ==> #[trigger] config@[i].maybe_receipt is None,
    {
        proof {
            use_type_invariant(&self);
        }
        let mut entries: Vec<EndorserData<Infallible>> = Vec::new();
        let mut i: usize = 0;
        while i < self.entries.len()
            invariant
                i <= self.entries@.len(),
                entries@.len() == i,
                forall|j: int|
                    0 <= j < i ==> (#[trigger] entries@[j]).endorser_key
                        == self.entries@[j].endorser_key,
                forall|j: int| 0 <= j < i ==> (#[trigger] entries@[j]).maybe_receipt is None,
            decreases self.entries@.len() - i,
        {
            entries.push(
                EndorserData { endorser_key: self.entries[i].endorser_key, maybe_receipt: None },
            );
            i += 1;
        }
        assert(keys_of(entries@) =~= self.key_seq());
        CohortData { entries }
    }
}

impl<R: Copy> Clone for CohortData<R> {
    fn clone(&self) -> (copy: Self)
        ensures
            copy@ == self@,
    {
        proof {
            use_type_invariant(self);
        }
        let mut entries: Vec<EndorserData<R>> = Vec::new();
        let mut i: usize = 0;
        while i < self.entries.len()
            invariant
                i <= self.entries@.len(),
                entries@ == self.entries@.take(i as int),
            decreases self.entries@.len() - i,
        {
            entries.push(self.entries[i]);
            i += 1;
        }
        assert(entries@ =~= self.entries@);
        CohortData { entries }
    }
}

/// The encodings of some keys, in order.
pub open spec fn encodings(keys: Seq<VerifyingKey>) -> Seq<Seq<u8>> {
    keys.map_values(|key: VerifyingKey| key@)
}

impl CohortConfig {
    /// Creates a new [`CohortConfig`] from keys.
    ///
    /// Returns `Err(InvalidConfigError)` if there are none or if they are not
    /// in strict ascending SEC1-lexicographic order (which also implies no
    /// duplicates).
    pub fn try_from_keys(keys: Vec<VerifyingKey>) -> (config: Result<Self, InvalidConfigError>)
        ensures
            config is Ok <==> valid_cohort(encodings(keys@)),
            config matches Ok(c) ==> c.key_seq() == encodings(keys@),
            config matches Ok(c) ==> forall|i: int|
                0 <= i < c@.len() ==> #[trigger] c@[i].maybe_receipt is None,
    {
        let mut entries: Vec<EndorserData<Infallible>> = Vec::new();
        let mut i: usize = 0;
        while i < keys.len()
            invariant
                i <= keys@.len(),
                entries@.len() == i,
                forall|j: int|
                    0 <= j < i ==> (#[trigger] entries@[j]).endorser_key == keys@[j],
                forall|j: int| 0 <= j < i ==> (#[trigger] entries@[j]).maybe_receipt is None,
            decreases keys@.len() - i,
        {
            entries.push(EndorserData { endorser_key: keys[i], maybe_receipt: None });
            i += 1;
        }
        assert(keys_of(entries@) =~= encodings(keys@));
        CohortData::try_new(entries)
    }
}

/// Computes the config ID: SHA-256 of the concatenated SEC1 bytes of the
/// provided verifying keys.
pub fn compute_config_id(keys: &[VerifyingKey]) -> (id: ConfigId)
    ensures
        id@ == config_id_of(encodings(keys@)),
{
    let mut message: Vec<u8> = Vec::new();
    let mut i: usize = 0;
    while i < keys.len()
        invariant
            i <= keys@.len(),
            message@ == concatenated(encodings(keys@).take(i as int)),
        decreases keys@.len() - i,
    {
        bytes::push_bytes(&mut message, keys[i].as_bytes());
        proof {
            let all = encodings(keys@);
            assert(all.take(i + 1).drop_last() =~= all.take(i as int));
        }
        i += 1;
    }
    assert(encodings(keys@).take(keys@.len() as int) =~= encodings(keys@));
    crypto::sha256(message.as_slice())
}

// ---------------------------------------------------------------------------
// Laws
// ---------------------------------------------------------------------------

/// Whether every key has the length of an uncompressed SEC1 encoding.
pub open spec fn well_sized(keys: Seq<Seq<u8>>) -> bool {
    forall|i: int| 0 <= i < keys.len() ==> (#[trigger] keys[i]).len() == 65
}

proof fn lemma_concatenated_len(keys: Seq<Seq<u8>>)
    requires
        well_sized(keys),
    ensures
        concatenated(keys).len() == 65 * keys.len(),
    decreases keys.len(),
{
    if keys.len() > 0 {
        lemma_concatenated_len(keys.drop_last());
        assert(keys.last() == keys[keys.len() - 1]);
    }
}

/// A config ID is the digest of one configuration only: two configurations
/// whose keys make up the same bytes have the same keys.
pub proof fn law_concatenation_is_injective(a: Seq<Seq<u8>>, b: Seq<Seq<u8>>)
    requires
        well_sized(a),
        well_sized(b),
        concatenated(a) == concatenated(b),
    ensures
        a == b,
    decreases a.len(),
{
    lemma_concatenated_len(a);
    lemma_concatenated_len(b);
    if a.len() > 0 {
        let all = concatenated(a);
        let n = all.len() - 65;
        assert(a.last() == a[a.len() - 1]);
        assert(b.last() == b[b.len() - 1]);
        assert(all.take(n) =~= concatenated(a.drop_last()));
        assert(all.take(n) =~= concatenated(b.drop_last()));
        assert(all.skip(n) =~= a.last());
        assert(all.skip(n) =~= b.last());
        law_concatenation_is_injective(a.drop_last(), b.drop_last());
        assert(a =~= a.drop_last().push(a.last()));
        assert(b =~= b.drop_last().push(b.last()));
    } else {
        assert(a =~= b);
    }
}

/// No key occurs twice in a cohort.
pub proof fn law_cohort_keys_are_unique(keys: Seq<Seq<u8>>, i: int, j: int)
    requires
        valid_cohort(keys),
        0 <= i < keys.len(),
        0 <= j < keys.len(),
        keys[i] == keys[j],
    ensures
        i == j,
{
    bytes::lemma_lex_irreflexive(keys[i]);
}

/// A set of keys makes up one cohort only: two cohorts with the same keys have
/// them in the same order, and so have the same config ID.
pub proof fn law_cohort_order_is_canonical(a: Seq<Seq<u8>>, b: Seq<Seq<u8>>)
    requires
        valid_cohort(a),
        valid_cohort(b),
        a.to_set() == b.to_set(),
    ensures
        a == b,
        config_id_of(a) == config_id_of(b),
{
    lemma_same_keys_same_order(a, b);
}

/// In strict ascending sequences, each key of the one has its place in the
/// other.
proof fn lemma_same_keys_same_order(a: Seq<Seq<u8>>, b: Seq<Seq<u8>>)
    requires
        strictly_ascending(a),
        strictly_ascending(b),
        a.to_set() == b.to_set(),
    ensures
        a == b,
    decreases a.len(),
{
    if a.len() == 0 {
        if b.len() > 0 {
            assert(b.to_set().contains(b[0]));
            assert(a.to_set().contains(b[0]));
        }
        assert(a =~= b);
    } else {
        assert(a.to_set().contains(a.last()));
        assert(b.to_set().contains(a.last()));
        let i = choose|i: int| 0 <= i < b.len() && b[i] == a.last();
        assert(b.to_set().contains(b.last()));
        assert(a.to_set().contains(b.last()));
        let j = choose|j: int| 0 <= j < a.len() && a[j] == b.last();
        if a.last() != b.last() {
            assert(bytes::lex_less(b[i], b[b.len() - 1]));
            assert(bytes::lex_less(a[j], a[a.len() - 1]));
            bytes::lemma_lex_transitive(a.last(), b.last(), a.last());
            bytes::lemma_lex_irreflexive(a.last());
        }
        let a2 = a.drop_last();
        let b2 = b.drop_last();
        assert forall|key: Seq<u8>| a2.to_set().contains(key) == b2.to_set().contains(key) by {
            if a2.to_set().contains(key) {
                let k = choose|k: int| 0 <= k < a2.len() && a2[k] == key;
                assert(a[k] == key);
                assert(a.to_set().contains(key));
                assert(b.to_set().contains(key));
                let m = choose|m: int| 0 <= m < b.len() && b[m] == key;
                if m == b.len() - 1 {
                    assert(bytes::lex_less(a[k], a[a.len() - 1]));
                    bytes::lemma_lex_irreflexive(key);
                }
                assert(b2[m] == key);
            }
            if b2.to_set().contains(key) {
                let k = choose|k: int| 0 <= k < b2.len() && b2[k] == key;
                assert(b[k] == key);
                assert(b.to_set().contains(key));
                assert(a.to_set().contains(key));
                let m = choose|m: int| 0 <= m < a.len() && a[m] == key;
                if m == a.len() - 1 {
                    assert(bytes::lex_less(b[k], b[b.len() - 1]));
                    bytes::lemma_lex_irreflexive(key);
                }
                assert(a2[m] == key);
            }
        }
        assert(a2.to_set() =~= b2.to_set());
        assert forall|x: int, y: int| 0 <= x < y < a2.len() implies bytes::lex_less(
            a2[x],
            a2[y],
        ) by {
            assert(bytes::lex_less(a[x], a[y]));
        }
        assert forall|x: int, y: int| 0 <= x < y < b2.len() implies bytes::lex_less(
            b2[x],
            b2[y],
        ) by {
            assert(bytes::lex_less(b[x], b[y]));
        }
        lemma_same_keys_same_order(a2, b2);
        assert(a =~= a2.push(a.last()));
        assert(b =~= b2.push(b.last()));
    }
}

} // verus!
