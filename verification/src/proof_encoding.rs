//! The versioned proof codec: packing a set of owned badges, an optional
//! timestamp and an optional free-text id into a short ASCII string, and
//! reading such a string back against a catalog.
//!
//! Each badge code names a bit position (see [`crate::quest_code`]); the set
//! of owned badges becomes a bit sequence, rendered as a hexadecimal
//! numeral.  The wire form is `"v1." + hex + "." + timestamp + "." + id`,
//! with empty fields for absent timestamp or id.

use crate::error::{Error, ProofErr};
use crate::numeral::{
    bit_at, bits_of_hex, bits_value, dec_of_nat, dec_value, hex_bits, hex_of_nat,
    lemma_bits_value_determines, lemma_hex_round_trip,
};
use crate::quest_code::{code_index, parse_code, render_code};
use crate::stellar_data::TOMLCurrency;
use crate::text::{concat_parts, split_chars};
use vstd::prelude::*;

verus! {

/// How many bit positions the packed form carries: nine per series, for the
/// ninety-nine series that two-digit codes can name, rounded up to whole
/// nibbles.
pub const PACKED_BITS: usize = 900;

/// A proof value: the badges it asserts, and optional metadata.
#[derive(Debug, PartialEq)]
pub struct Proof {
    pub owned_badges: Vec<TOMLCurrency>,
    pub timestamp: Option<u64>,
    pub unique_id: Option<String>,
}

impl Default for Proof {
    /// An empty proof: no badges, no timestamp, no id.
    fn default() -> (r: Proof)
        ensures
            r.owned_badges@ == Seq::<TOMLCurrency>::empty(),
            r.timestamp is None,
            r.unique_id is None,
    {
        Proof { owned_badges: Vec::new(), timestamp: None, unique_id: None }
    }
}

impl Clone for Proof {
    fn clone(&self) -> (res: Self)
        ensures
            res.owned_badges@ == self.owned_badges@,
            res.timestamp == self.timestamp,
            res.unique_id matches Some(u) ==> self.unique_id matches Some(v) && u@ == v@,
            res.unique_id is None <==> self.unique_id is None,
    {
        let owned = self.owned_badges.clone();
        proof {
            assert(owned@ =~= self.owned_badges@);
        }
        Proof {
            owned_badges: owned,
            timestamp: self.timestamp,
            unique_id: match &self.unique_id {
                Some(u) => Some(u.clone()),
                None => None,
            },
        }
    }
}

/// Whether some badge of `badges` owns bit position `i`.
pub open spec fn proof_bit(badges: Seq<TOMLCurrency>, i: int) -> bool {
    exists|k: int| 0 <= k < badges.len() && code_index(badges[k].code@) == Some(i as nat)
}

/// The packed bit sequence of a badge set.
pub open spec fn packed_bits(badges: Seq<TOMLCurrency>) -> Seq<bool> {
    Seq::new(PACKED_BITS as nat, |i: int| proof_bit(badges, i))
}

/// The packed value of a badge set: the integer whose hexadecimal form the
/// proof string carries.
pub open spec fn packed_value(badges: Seq<TOMLCurrency>) -> nat {
    bits_value(packed_bits(badges))
}

/// Whether every badge code follows the quest-code grammar, so that the set
/// can be encoded.
pub open spec fn encodable(badges: Seq<TOMLCurrency>) -> bool {
    forall|k: int| 0 <= k < badges.len() ==> parse_code(#[trigger] badges[k].code@) is Some
}

/// Whether the id is free of the field delimiter, so that it can ride in the
/// last field.
pub open spec fn uid_ok(uid: Option<String>) -> bool {
    match uid {
        None => true,
        Some(u) => forall|i: int| 0 <= i < u@.len() ==> u@[i] != '.',
    }
}

/// The timestamp field: empty for an absent timestamp.
pub open spec fn ts_field(ts: Option<u64>) -> Seq<char> {
    match ts {
        None => Seq::<char>::empty(),
        Some(t) => dec_of_nat(t as nat),
    }
}

/// The id field: empty for an absent id.
pub open spec fn uid_field(uid: Option<String>) -> Seq<char> {
    match uid {
        None => Seq::<char>::empty(),
        Some(u) => u@,
    }
}

/// The full wire string of a proof.
pub open spec fn encoded_string(
    badges: Seq<TOMLCurrency>,
    ts: Option<u64>,
    uid: Option<String>,
) -> Seq<char> {
    "v1."@ + hex_of_nat(packed_value(badges)) + "."@ + ts_field(ts) + "."@ + uid_field(uid)
}

impl Proof {
    /// Encodes the proof as a version-1 string.  Succeeds exactly when every
    /// badge code follows the quest-code grammar and the id is free of the
    /// field delimiter; badges whose task lies beyond the packed range are
    /// dropped from the packed value.
    pub fn encode_v1(&self) -> (r: Result<String, Error>)
        ensures
            match r {
                Ok(s) => encodable(self.owned_badges@) && uid_ok(self.unique_id) && s@
                    == encoded_string(self.owned_badges@, self.timestamp, self.unique_id),
                Err(e) => !(encodable(self.owned_badges@) && uid_ok(self.unique_id)) && e is Other,
            },
    {
        let mut bits: Vec<bool> = vec![false; PACKED_BITS];
        proof {
            assert(forall|i: int|
                0 <= i < PACKED_BITS ==> bits@[i] == proof_bit(
                    self.owned_badges@.take(0),
                    i,
                ));
        }
        let mut k: usize = 0;
        while k < self.owned_badges.len()
            invariant
                k <= self.owned_badges@.len(),
                bits@.len() == PACKED_BITS,
                forall|i: int|
                    0 <= i < PACKED_BITS ==> bits@[i] == proof_bit(
                        self.owned_badges@.take(k as int),
                        i,
                    ),
                forall|j: int|
                    0 <= j < k ==> parse_code(#[trigger] self.owned_badges@[j].code@) is Some,
            decreases self.owned_badges@.len() - k,
        {
            let ghost prefix = self.owned_badges@.take(k as int);
            let ghost prefix1 = self.owned_badges@.take(k + 1 as int);
            let ghost ck = self.owned_badges@[k as int].code@;
            match crate::quest_code::parse_code_str(self.owned_badges[k].code.as_str()) {
                None => {
                    return Err(
                        Error::Other(String::from_str("badge code is no quest code")),
                    );
                },
                Some((series, task)) => {
                    if task <= 8 {
                        proof {
                            assert(1 <= series <= 99 && task <= 8);
                        }
                        let idx = 9 * ((series - 1) as usize) + (task as usize);
                        let ghost old_bits = bits@;
                        bits[idx] = true;
                        proof {
                            assert(code_index(ck) == Some(idx as nat));
                            assert forall|i: int|
                                0 <= i < PACKED_BITS implies bits@[i] == proof_bit(
                                prefix1,
                                i,
                            ) by {
                                assert(forall|j: int| 0 <= j < k ==> prefix1[j] == prefix[j]);
                                assert(prefix1[k as int] == self.owned_badges@[k as int]);
                                if i == idx {
                                    assert(proof_bit(prefix1, i));
                                } else {
                                    if proof_bit(prefix1, i) {
                                        let j = choose|j: int|
                                            0 <= j < prefix1.len() && code_index(
                                                prefix1[j].code@,
                                            ) == Some(i as nat);
                                        assert(j < k);
                                        assert(proof_bit(prefix, i));
                                    }
                                    if proof_bit(prefix, i) {
                                        let j = choose|j: int|
                                            0 <= j < prefix.len() && code_index(prefix[j].code@)
                                                == Some(i as nat);
                                        assert(code_index(prefix1[j].code@) == Some(i as nat));
                                        assert(proof_bit(prefix1, i));
                                    }
                                }
                            }
                        }
                    } else {
                        proof {
                            assert(code_index(ck) is None);
                            assert forall|i: int|
                                0 <= i < PACKED_BITS implies bits@[i] == proof_bit(
                                prefix1,
                                i,
                            ) by {
                                assert(forall|j: int| 0 <= j < k ==> prefix1[j] == prefix[j]);
                                assert(prefix1[k as int] == self.owned_badges@[k as int]);
                                if proof_bit(prefix1, i) {
                                    let j = choose|j: int|
                                        0 <= j < prefix1.len() && code_index(prefix1[j].code@)
                                            == Some(i as nat);
                                    assert(j < k);
                                    assert(proof_bit(prefix, i));
                                }
                                if proof_bit(prefix, i) {
                                    let j = choose|j: int|
                                        0 <= j < prefix.len() && code_index(prefix[j].code@)
                                            == Some(i as nat);
                                    assert(code_index(prefix1[j].code@) == Some(i as nat));
                                    assert(proof_bit(prefix1, i));
                                }
                            }
                        }
                    }
                },
            }
            k = k + 1;
        }
        proof {
            assert(self.owned_badges@.take(self.owned_badges@.len() as int)
                =~= self.owned_badges@);
            assert(bits@ =~= packed_bits(self.owned_badges@));
        }
        let hex = crate::numeral::hex_string_of_bits(&bits);
        let ts_str = match self.timestamp {
            Some(t) => crate::numeral::dec_string_of_u64(t),
            None => String::new(),
        };
        let uid_str = match &self.unique_id {
            Some(u) => {
                if crate::text::contains_char(u.as_str(), '.') {
                    return Err(
                        Error::Other(String::from_str("unique id holds the field delimiter")),
                    );
                }
                u.clone()
            },
            None => String::new(),
        };
        let mut out = String::from_str("v1.");
        out.append(hex.as_str());
        out.append(".");
        out.append(ts_str.as_str());
        out.append(".");
        out.append(uid_str.as_str());
        proof {
            assert(out@ =~= encoded_string(self.owned_badges@, self.timestamp, self.unique_id));
        }
        Ok(out)
    }

    /// Decodes a version-1 proof string against a catalog.  Fails exactly on
    /// a string of fewer than four fields, or on one whose version field is
    /// not `v1`.  The badges of the result are the catalog entries, in
    /// catalog order, whose code is named by a set bit of the hexadecimal
    /// field; an unreadable hexadecimal field counts as zero, an unreadable
    /// timestamp as absent.
    #[verifier::rlimit(60)]
    pub fn decode_v1(encoded: &String, available_badges: &Vec<TOMLCurrency>) -> (r: Result<
        Proof,
        Error,
    >)
        ensures
            ({
                let parts = split_chars(encoded@, '.');
                match r {
                    Ok(p) => {
                        &&& parts.len() >= 4
                        &&& parts[0] == "v1"@
                        &&& p.owned_badges@ == claimed_badges(
                            available_badges@,
                            hex_bits(parts[1]),
                        )
                        &&& p.timestamp == ts_of_field(parts[2])
                        &&& (p.unique_id matches Some(u) ==> u@ == concat_parts(parts, 3)
                            && u@.len() > 0)
                        &&& (p.unique_id is None ==> concat_parts(parts, 3).len() == 0)
                    },
                    Err(e) => {
                        ||| (parts.len() < 4 && e == Error::ProofErr(
                            ProofErr::ProofInvalidEncoding,
                        ))
                        ||| (parts.len() >= 4 && parts[0] != "v1"@ && e == Error::ProofErr(
                            ProofErr::ProofWrongVersion,
                        ))
                    },
                }
            }),
    {
        let parts = crate::text::split_str(encoded.as_str(), '.');
        let ghost pviews = split_chars(encoded@, '.');
        if parts.len() < 4 {
            return Err(Error::ProofErr(ProofErr::ProofInvalidEncoding));
        }
        if !crate::text::str_eq(parts[0].as_str(), "v1") {
            return Err(Error::ProofErr(ProofErr::ProofWrongVersion));
        }
        let bits = crate::numeral::parse_hex_bits(parts[1].as_str());
        proof {
            assert(parts@.map_values(|p: String| p@)[1] == parts@[1]@);
            assert(bits@ == hex_bits(pviews[1]));
        }
        let timestamp = crate::numeral::parse_dec_u64(parts[2].as_str());
        let uid = crate::text::join_from(&parts, 3);
        let unique_id = if uid.unicode_len() == 0 {
            None
        } else {
            Some(uid)
        };
        let (names, witnesses) = claimed_names(&bits);
        let ghost idx_of = witnesses@.0;
        let ghost pos_of = witnesses@.1;
        let mut owned: Vec<TOMLCurrency> = Vec::new();
        let mut j: usize = 0;
        while j < available_badges.len()
            invariant
                j <= available_badges@.len(),
                owned@ == claimed_badges(available_badges@.take(j as int), bits@),
                names@.len() == idx_of.len(),
                forall|k: int|
                    0 <= k < idx_of.len() ==> 0 <= #[trigger] idx_of[k] < bits@.len()
                        && bits@[idx_of[k]] && names@[k]@ == render_code(idx_of[k] as nat),
                forall|ii: int|
                    0 <= ii < bits@.len() && #[trigger] bits@[ii] ==> pos_of.contains_key(ii) && 0
                        <= pos_of[ii] < names@.len() && names@[pos_of[ii]]@ == render_code(
                        ii as nat,
                    ),
            decreases available_badges@.len() - j,
        {
            let ghost prefix = available_badges@.take(j as int);
            let ghost prefix1 = available_badges@.take(j + 1 as int);
            let hit = crate::text::contains_str(&names, available_badges[j].code.as_str());
            proof {
                let b = available_badges@[j as int];
                if hit {
                    let k = choose|k: int|
                        0 <= k < names@.len() && (#[trigger] names@[k])@ == b.code@;
                    let ii = idx_of[k];
                    assert(0 <= ii < bits@.len() && bits@[ii] && b.code@ == render_code(ii as nat));
                    assert(name_claimed(bits@, b.code@));
                } else {
                    if name_claimed(bits@, b.code@) {
                        let ii = choose|ii: int|
                            0 <= ii < bits@.len() && bits@[ii] && b.code@ == render_code(
                                ii as nat,
                            );
                        assert(bits@[ii]);
                        let k = pos_of[ii];
                        assert(names@[k]@ == b.code@);
                        assert(false);
                    }
                }
                assert(hit == name_claimed(bits@, b.code@));
                assert(prefix1.drop_last() =~= prefix);
                assert(prefix1.last() == b);
                reveal(Seq::filter);
            }
            if hit {
                let entry = available_badges[j].clone();
                owned.push(entry);
                proof {
                    assert(owned@ =~= claimed_badges(prefix1, bits@));
                }
            } else {
                proof {
                    assert(owned@ =~= claimed_badges(prefix1, bits@));
                }
            }
            j = j + 1;
        }
        proof {
            assert(available_badges@.take(available_badges@.len() as int) =~= available_badges@);
        }
        Ok(Proof { owned_badges: owned, timestamp, unique_id })
    }
}


/// The names of the set bits of `bits`: for each set position, the quest
/// code that names it.  Beside the names, the ghost result carries, for each
/// name, the bit position it came from, and, for each set bit, the position
/// of its name in the list.
fn claimed_names(bits: &Vec<bool>) -> (r: (Vec<String>, Ghost<(Seq<int>, Map<int, int>)>))
    ensures
        ({
            let names = r.0;
            let idx_of = r.1@.0;
            let pos_of = r.1@.1;
            &&& names@.len() == idx_of.len()
            &&& forall|k: int|
                0 <= k < idx_of.len() ==> 0 <= #[trigger] idx_of[k] < bits@.len()
                    && bits@[idx_of[k]] && names@[k]@ == render_code(idx_of[k] as nat)
            &&& forall|ii: int|
                0 <= ii < bits@.len() && #[trigger] bits@[ii] ==> pos_of.contains_key(ii) && 0
                    <= pos_of[ii] < names@.len() && names@[pos_of[ii]]@ == render_code(ii as nat)
        }),
{
    let mut names: Vec<String> = Vec::new();
    let ghost mut idx_of: Seq<int> = Seq::empty();
    let ghost mut pos_of: Map<int, int> = Map::empty();
    let mut i: usize = 0;
    while i < bits.len()
        invariant
            i <= bits@.len(),
            names@.len() == idx_of.len(),
            forall|k: int|
                0 <= k < idx_of.len() ==> 0 <= #[trigger] idx_of[k] < i && bits@[idx_of[k]]
                    && names@[k]@ == render_code(idx_of[k] as nat),
            forall|ii: int|
                0 <= ii < i && #[trigger] bits@[ii] ==> pos_of.contains_key(ii) && 0 <= pos_of[ii]
                    < names@.len() && names@[pos_of[ii]]@ == render_code(ii as nat),
        decreases bits@.len() - i,
    {
        if bits[i] {
            proof {
                pos_of = pos_of.insert(i as int, names@.len() as int);
                idx_of = idx_of.push(i as int);
            }
            names.push(crate::quest_code::render_code_str(i));
        }
        i = i + 1;
    }
    (names, Ghost((idx_of, pos_of)))
}

/// The catalog entries whose code a set bit names, in catalog order.
pub open spec fn claimed_badges(catalog: Seq<TOMLCurrency>, bits: Seq<bool>) -> Seq<TOMLCurrency> {
    catalog.filter(|b: TOMLCurrency| name_claimed(bits, b.code@))
}

/// Whether the bit sequence of a proof names the code `c`: some set bit's
/// position renders as `c`.
pub open spec fn name_claimed(bits: Seq<bool>, c: Seq<char>) -> bool {
    exists|i: int| 0 <= i < bits.len() && bits[i] && c == render_code(i as nat)
}

/// The timestamp read from its field: absent where the field is empty, is no
/// decimal numeral, or names a value beyond `u64`.
pub open spec fn ts_of_field(s: Seq<char>) -> Option<u64> {
    match dec_value(s) {
        Some(v) => if v <= u64::MAX {
            Some(v as u64)
        } else {
            None
        },
        None => None,
    }
}

/// A name decoded from a set bit is never a quest code with a task beyond
/// the packed range: where it parses at all, its task is at most eight.
pub proof fn lemma_claimed_task_bounded(bits: Seq<bool>, c: Seq<char>)
    requires
        name_claimed(bits, c),
    ensures
        parse_code(c) matches Some(p) ==> p.1 <= 8,
{
    let i = choose|i: int| 0 <= i < bits.len() && bits[i] && c == render_code(i as nat);
    crate::quest_code::lemma_rendered_task_bounded(i as nat);
}

/// A badge that owns no bit position — its task lies beyond the packed
/// range, or its code is no quest code — never changes the packed value.
pub proof fn lemma_unpacked_badge_dropped(badges: Seq<TOMLCurrency>, b: TOMLCurrency)
    requires
        code_index(b.code@) is None,
    ensures
        packed_value(badges.push(b)) == packed_value(badges),
{
    let grown = badges.push(b);
    assert forall|i: int| 0 <= i < PACKED_BITS implies proof_bit(grown, i) == proof_bit(
        badges,
        i,
    ) by {
        if proof_bit(grown, i) {
            let k = choose|k: int|
                0 <= k < grown.len() && code_index(#[trigger] grown[k].code@) == Some(i as nat);
            assert(k < badges.len());
            assert(code_index(badges[k].code@) == Some(i as nat));
            assert(proof_bit(badges, i));
        }
        if proof_bit(badges, i) {
            let k = choose|k: int|
                0 <= k < badges.len() && code_index(#[trigger] badges[k].code@) == Some(i as nat);
            assert(code_index(grown[k].code@) == Some(i as nat));
            assert(proof_bit(grown, i));
        }
    }
    assert(packed_bits(grown) =~= packed_bits(badges));
}

/// Whether some entry of `s` carries the code `c`.
pub open spec fn has_code(s: Seq<TOMLCurrency>, c: Seq<char>) -> bool {
    exists|k: int| 0 <= k < s.len() && (#[trigger] s[k]).code@ == c
}

/// The heart of the round trip: a code is named by a set bit of the
/// hexadecimal numeral of a badge set's packed value exactly when the set
/// holds a badge with that code.  Every badge of the set must own a bit
/// position, that is, follow the grammar with a task of at most eight.
pub proof fn lemma_round_trip_names(chosen: Seq<TOMLCurrency>, c: Seq<char>)
    requires
        forall|k: int| 0 <= k < chosen.len() ==> code_index(#[trigger] chosen[k].code@) is Some,
    ensures
        name_claimed(hex_bits(hex_of_nat(packed_value(chosen))), c) <==> has_code(chosen, c),
{
    lemma_hex_round_trip(packed_value(chosen));
    let decoded_bits = bits_of_hex(hex_of_nat(packed_value(chosen)));
    assert(hex_bits(hex_of_nat(packed_value(chosen))) == decoded_bits);
    lemma_bits_value_determines(decoded_bits, packed_bits(chosen));
    if name_claimed(decoded_bits, c) {
        let i = choose|i: int|
            0 <= i < decoded_bits.len() && decoded_bits[i] && c == render_code(i as nat);
        assert(bit_at(decoded_bits, i) == bit_at(packed_bits(chosen), i));
        assert(proof_bit(chosen, i));
        let k = choose|k: int|
            0 <= k < chosen.len() && code_index(#[trigger] chosen[k].code@) == Some(i as nat);
        crate::quest_code::lemma_render_of_parse(chosen[k].code@);
        assert(chosen[k].code@ == c);
    }
    if has_code(chosen, c) {
        let k = choose|k: int| 0 <= k < chosen.len() && (#[trigger] chosen[k]).code@ == c;
        let i = code_index(chosen[k].code@)->Some_0;
        crate::quest_code::lemma_render_of_parse(chosen[k].code@);
        assert(c == render_code(i));
        assert(i < 891);
        assert(proof_bit(chosen, i as int));
        assert(packed_bits(chosen)[i as int]);
        assert(bit_at(decoded_bits, i as int) == bit_at(packed_bits(chosen), i as int));
        assert(decoded_bits[i as int] && c == render_code(i));
        assert(name_claimed(decoded_bits, c));
    }
}

/// Round trip through a catalog: decoding the packed value of a badge set
/// against a catalog that holds all its codes yields badges with exactly the
/// set's codes.
pub proof fn lemma_encode_decode_round_trip(catalog: Seq<TOMLCurrency>, chosen: Seq<TOMLCurrency>)
    requires
        forall|k: int| 0 <= k < chosen.len() ==> code_index(#[trigger] chosen[k].code@) is Some,
        forall|k: int| 0 <= k < chosen.len() ==> has_code(catalog, (#[trigger] chosen[k]).code@),
    ensures
        ({
            let decoded = claimed_badges(catalog, hex_bits(hex_of_nat(packed_value(chosen))));
            &&& forall|j: int|
                0 <= j < decoded.len() ==> has_code(chosen, (#[trigger] decoded[j]).code@)
            &&& forall|k: int|
                0 <= k < chosen.len() ==> has_code(decoded, (#[trigger] chosen[k]).code@)
        }),
{
    lemma_hex_round_trip(packed_value(chosen));
    let decoded_bits = hex_bits(hex_of_nat(packed_value(chosen)));
    broadcast use vstd::seq_lib::group_filter_ensures;

    let pred = |b: TOMLCurrency| name_claimed(decoded_bits, b.code@);
    let decoded = claimed_badges(catalog, decoded_bits);
    assert forall|j: int|
        0 <= j < decoded.len() implies has_code(chosen, (#[trigger] decoded[j]).code@) by {
        assert(pred(decoded[j]));
        lemma_round_trip_names(chosen, decoded[j].code@);
    }
    assert forall|k: int|
        0 <= k < chosen.len() implies has_code(decoded, (#[trigger] chosen[k]).code@) by {
        let jc = choose|jc: int|
            0 <= jc < catalog.len() && (#[trigger] catalog[jc]).code@ == chosen[k].code@;
        lemma_round_trip_names(chosen, catalog[jc].code@);
        assert(chosen[k].code@ == catalog[jc].code@);
        assert(name_claimed(decoded_bits, catalog[jc].code@));
        assert(pred(catalog[jc]));
        assert(decoded.contains(catalog[jc]));
        let j = choose|j: int| 0 <= j < decoded.len() && decoded[j] == catalog[jc];
        assert(decoded[j].code@ == chosen[k].code@);
        assert(has_code(decoded, chosen[k].code@));
    }
}

/// The round trip in full: the wire string of a proof splits into its four
/// fields; read back against a catalog that holds all the encoded codes, the
/// claimed badges carry exactly the encoded codes, the timestamp comes back
/// unchanged, and so does the id.  Every encoded badge must own a bit
/// position: follow the grammar with a task of at most eight.
pub proof fn lemma_proof_string_round_trip(
    catalog: Seq<TOMLCurrency>,
    badges: Seq<TOMLCurrency>,
    ts: Option<u64>,
    uid: Option<String>,
)
    requires
        uid_ok(uid),
        forall|k: int| 0 <= k < badges.len() ==> code_index(#[trigger] badges[k].code@) is Some,
        forall|k: int| 0 <= k < badges.len() ==> has_code(catalog, (#[trigger] badges[k]).code@),
    ensures
        ({
            let parts = split_chars(encoded_string(badges, ts, uid), '.');
            let decoded = claimed_badges(catalog, hex_bits(parts[1]));
            &&& parts.len() == 4
            &&& parts[0] == "v1"@
            &&& forall|j: int|
                0 <= j < decoded.len() ==> has_code(badges, (#[trigger] decoded[j]).code@)
            &&& forall|k: int|
                0 <= k < badges.len() ==> has_code(decoded, (#[trigger] badges[k]).code@)
            &&& ts_of_field(parts[2]) == ts
            &&& concat_parts(parts, 3) == uid_field(uid)
        }),
{
    lemma_encoded_string_fields(badges, ts, uid);
    let parts = split_chars(encoded_string(badges, ts, uid), '.');
    assert(parts[1] == hex_of_nat(packed_value(badges)));
    lemma_encode_decode_round_trip(catalog, badges);
    match ts {
        None => {
            assert(ts_of_field(parts[2]) is None);
        },
        Some(t) => {
            crate::numeral::lemma_dec_round_trip(t as nat);
            assert(ts_of_field(parts[2]) == Some(t));
        },
    }
    assert(concat_parts(parts, 4) =~= Seq::<char>::empty());
    assert(concat_parts(parts, 3) =~= uid_field(uid));
}

/// Splitting the wire string of a proof yields exactly its four fields.
pub proof fn lemma_encoded_string_fields(
    badges: Seq<TOMLCurrency>,
    ts: Option<u64>,
    uid: Option<String>,
)
    requires
        uid_ok(uid),
    ensures
        split_chars(encoded_string(badges, ts, uid), '.') == seq![
            "v1"@,
            hex_of_nat(packed_value(badges)),
            ts_field(ts),
            uid_field(uid),
        ],
{
    let hex = hex_of_nat(packed_value(badges));
    let tsf = ts_field(ts);
    let uidf = uid_field(uid);
    let s = encoded_string(badges, ts, uid);
    reveal_strlit("v1.");
    reveal_strlit("v1");
    reveal_strlit(".");
    lemma_hex_round_trip(packed_value(badges));
    assert(forall|i: int| 0 <= i < hex.len() ==> #[trigger] hex[i] != '.');
    if ts is Some {
        crate::numeral::lemma_dec_of_nat_digits(ts->Some_0 as nat);
    }
    assert(forall|i: int| 0 <= i < tsf.len() ==> #[trigger] tsf[i] != '.');
    assert(forall|i: int| 0 <= i < uidf.len() ==> #[trigger] uidf[i] != '.');
    let tail2 = tsf + seq!['.'] + uidf;
    let tail1 = hex + seq!['.'] + tail2;
    assert(s =~= "v1"@ + seq!['.'] + tail1);
    crate::text::lemma_split_concat("v1"@, tail1, '.');
    crate::text::lemma_split_concat(hex, tail2, '.');
    crate::text::lemma_split_concat(tsf, uidf, '.');
    crate::text::lemma_split_no_sep("v1"@, '.');
    crate::text::lemma_split_no_sep(hex, '.');
    crate::text::lemma_split_no_sep(tsf, '.');
    crate::text::lemma_split_no_sep(uidf, '.');
    assert(split_chars(s, '.') =~= seq!["v1"@, hex, tsf, uidf]);
}

} // verus!
