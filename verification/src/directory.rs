//! The account directory: the authoritative ordered list of discovered
//! accounts and their selection flags.
use vstd::prelude::*;

use crate::errors::SweepError;
use crate::record::{
    AccountRecord, RawRecord, RecordModel, decode_record, decoded_model, parse_fault_of,
    raw_valid, with_selected,
};

verus! {

/// The models of a sequence of records.
pub open spec fn models_of(s: Seq<AccountRecord>) -> Seq<RecordModel> {
    s.map_values(|r: AccountRecord| r@)
}

/// Some record in `s` has address `a`.
pub open spec fn has_address(s: Seq<RecordModel>, a: Seq<u8>) -> bool {
    exists|i: int| 0 <= i < s.len() && (#[trigger] s[i].address) == a
}

/// The index of the record with address `a`, where one exists.
pub open spec fn addr_index(s: Seq<RecordModel>, a: Seq<u8>) -> int {
    choose|i: int| 0 <= i < s.len() && (#[trigger] s[i].address) == a
}

/// No two records share an address.
pub open spec fn unique_addresses(s: Seq<RecordModel>) -> bool {
    forall|i: int, j: int|
        #![trigger s[i].address, s[j].address]
        0 <= i < j < s.len() ==> s[i].address != s[j].address
}

/// A record's raw identifiers are the 32 bytes its textual forms decode to.
pub open spec fn record_wf(m: RecordModel) -> bool {
    &&& m.address_raw.len() == 32
    &&& m.mint_raw.len() == 32
}

/// The records of `s` with every selection flag set to `v`.
pub open spec fn all_set(s: Seq<RecordModel>, v: bool) -> Seq<RecordModel> {
    s.map_values(|m: RecordModel| with_selected(m, v))
}

/// The selected records of `s`, in order.
pub open spec fn selected_models(s: Seq<RecordModel>) -> Seq<RecordModel> {
    s.filter(|m: RecordModel| m.selected)
}

/// With unique addresses, a record's index is the index its address resolves
/// to.
pub proof fn lemma_addr_index_unique(s: Seq<RecordModel>, i: int)
    requires
        unique_addresses(s),
        0 <= i < s.len(),
    ensures
        has_address(s, s[i].address),
        addr_index(s, s[i].address) == i,
{
    assert(has_address(s, s[i].address));
    let k = addr_index(s, s[i].address);
    assert(0 <= k < s.len() && s[k].address == s[i].address);
    if k < i {
        assert(s[k].address != s[i].address);
    } else if i < k {
        assert(s[i].address != s[k].address);
    }
}

/// `s` with every record whose address already occurred earlier removed.
pub open spec fn dedup_by_address(s: Seq<RecordModel>) -> Seq<RecordModel>
    decreases s.len(),
{
    if s.len() == 0 {
        Seq::empty()
    } else {
        let prefix = dedup_by_address(s.drop_last());
        if has_address(s.drop_last(), s.last().address) {
            prefix
        } else {
            prefix.push(s.last())
        }
    }
}

/// The models of the records a sequence of raw entries decodes to.
pub open spec fn decoded_models(s: Seq<RawRecord>) -> Seq<RecordModel> {
    s.map_values(|r: RawRecord| decoded_model(r))
}

/// Law: uniqueness. Deduplication keeps the first record for each address,
/// so no two kept records share an address, and it keeps an address if and
/// only if some input record had it.
pub proof fn lemma_dedup_by_address(s: Seq<RecordModel>)
    ensures
        unique_addresses(dedup_by_address(s)),
        forall|a: Seq<u8>| #[trigger] has_address(dedup_by_address(s), a) == has_address(s, a),
        dedup_by_address(s).len() <= s.len(),
    decreases s.len(),
{
    if s.len() > 0 {
        lemma_dedup_by_address(s.drop_last());
        let d = dedup_by_address(s);
        let dp = dedup_by_address(s.drop_last());
        assert(forall|a: Seq<u8>| has_address(s.drop_last(), a) ==> has_address(s, a)) by {
            assert(forall|i: int|
                0 <= i < s.drop_last().len() ==> (#[trigger] s.drop_last()[i]) == s[i]);
        }
        assert(forall|a: Seq<u8>| has_address(s, a) && a != s.last().address ==> has_address(
            s.drop_last(),
            a,
        )) by {
            assert forall|a: Seq<u8>|
                has_address(s, a) && a != s.last().address implies has_address(
                s.drop_last(),
                a,
            ) by {
                let i = choose|i: int|
                    0 <= i < s.len() && (#[trigger] s[i].address) == a;
                assert(i < s.len() - 1);
                assert(s.drop_last()[i].address == a);
            }
        }
        if !has_address(s.drop_last(), s.last().address) {
            assert(d == dp.push(s.last()));
            assert(unique_addresses(d)) by {
                assert(forall|i: int| 0 <= i < dp.len() ==> (#[trigger] d[i]) == dp[i]);
                assert(d[d.len() - 1] == s.last());
                assert(forall|i: int|
                    0 <= i < dp.len() ==> (#[trigger] dp[i].address) != s.last().address) by {
                    assert(forall|i: int|
                        0 <= i < dp.len() && (#[trigger] dp[i].address) == s.last().address
                            ==> has_address(dp, s.last().address));
                }
            }
            assert(forall|a: Seq<u8>| #[trigger] has_address(d, a) == has_address(s, a)) by {
                assert forall|a: Seq<u8>| has_address(s, a) implies has_address(d, a) by {
                    if a == s.last().address {
                        assert(d[d.len() - 1].address == a);
                    } else {
                        assert(has_address(dp, a));
                        let i = choose|i: int|
                            0 <= i < dp.len() && (#[trigger] dp[i].address) == a;
                        assert(d[i].address == a);
                    }
                }
                assert forall|a: Seq<u8>| has_address(d, a) implies has_address(s, a) by {
                    let i = choose|i: int|
                        0 <= i < d.len() && (#[trigger] d[i].address) == a;
                    if i < dp.len() {
                        assert(dp[i].address == a);
                        assert(has_address(dp, a));
                        assert(has_address(s.drop_last(), a));
                    } else {
                        assert(a == s.last().address);
                        assert(s[s.len() - 1].address == a);
                    }
                }
            }
        } else {
            assert(d == dp);
            assert(forall|a: Seq<u8>| #[trigger] has_address(d, a) == has_address(s, a)) by {
                assert forall|a: Seq<u8>| has_address(s, a) implies has_address(d, a) by {
                    if a == s.last().address {
                        assert(has_address(s.drop_last(), a));
                    } else {
                        let i = choose|i: int|
                            0 <= i < s.len() && (#[trigger] s[i].address) == a;
                        assert(i < s.len() - 1);
                        assert(s.drop_last()[i].address == a);
                    }
                }
            }
        }
    }
}

/// The authoritative in-memory list of all discovered account records.
#[derive(Debug)]
pub struct Directory {
    pub records: Vec<AccountRecord>,
}

impl View for Directory {
    type V = Seq<RecordModel>;

    open spec fn view(&self) -> Seq<RecordModel> {
        models_of(self.records@)
    }
}

/// The index of the first record of `recs` whose address is `a`, or nothing.
fn find_address(recs: &Vec<AccountRecord>, a: &Vec<u8>) -> (r: Option<usize>)
    ensures
        match r {
            Some(i) => {
                &&& i < models_of(recs@).len()
                &&& models_of(recs@)[i as int].address == a@
                &&& forall|t: int|
                    0 <= t < i ==> (#[trigger] models_of(recs@)[t].address) != a@
            },
            None => !has_address(models_of(recs@), a@),
        },
{
    let mut i: usize = 0;
    while i < recs.len()
        invariant
            i <= recs@.len(),
            forall|t: int| 0 <= t < i ==> (#[trigger] models_of(recs@)[t].address) != a@,
        decreases recs@.len() - i,
    {
        if bytes_eq(&recs[i].address, a) {
            return Some(i);
        }
        i += 1;
    }
    proof {
        assert(!has_address(models_of(recs@), a@)) by {
            if has_address(models_of(recs@), a@) {
                let t = choose|t: int|
                    0 <= t < models_of(recs@).len() && (#[trigger] models_of(
                        recs@,
                    )[t].address) == a@;
                assert(models_of(recs@)[t].address != a@);
            }
        }
    }
    None
}

/// Whether two byte vectors hold the same bytes.
pub fn bytes_eq(a: &Vec<u8>, b: &Vec<u8>) -> (r: bool)
    ensures
        r == (a@ == b@),
{
    if a.len() != b.len() {
        proof {
            assert(a@ != b@);
        }
        return false;
    }
    let mut i: usize = 0;
    while i < a.len()
        invariant
            a@.len() == b@.len(),
            i <= a@.len(),
            forall|t: int| 0 <= t < i ==> a@[t] == b@[t],
        decreases a@.len() - i,
    {
        if a[i] != b[i] {
            proof {
                assert(a@ != b@);
            }
            return false;
        }
        i += 1;
    }
    proof {
        assert(a@ =~= b@);
    }
    true
}

impl Directory {
    /// The directory's invariant: unique addresses, well-formed identifiers.
    pub open spec fn wf(self) -> bool {
        &&& self@.len() <= usize::MAX
        &&& unique_addresses(self@)
        &&& forall|i: int| 0 <= i < self@.len() ==> record_wf(#[trigger] self@[i])
    }

    /// Flips the selection flag of the record with the given address and
    /// returns the new flag value; leaves the directory unchanged and
    /// returns false when no record has that address.
    pub fn toggle(&mut self, address: &Vec<u8>) -> (r: bool)
        requires
            old(self).wf(),
        ensures
            final(self).wf(),
            !has_address(old(self)@, address@) ==> final(self)@ == old(self)@ && r == false,
            has_address(old(self)@, address@) ==> {
                let k = addr_index(old(self)@, address@);
                &&& final(self)@ == old(self)@.update(
                    k,
                    with_selected(old(self)@[k], !old(self)@[k].selected),
                )
                &&& r == !old(self)@[k].selected
            },
    {
        match find_address(&self.records, address) {
            None => false,
            Some(i) => {
                let new_flag = !self.records[i].selected;
                let rec = self.records[i].duplicate();
                let updated = AccountRecord {
                    address: rec.address,
                    address_raw: rec.address_raw,
                    mint: rec.mint,
                    mint_raw: rec.mint_raw,
                    raw_balance: rec.raw_balance,
                    display_balance: rec.display_balance,
                    selected: new_flag,
                };
                proof {
                    lemma_addr_index_unique(old(self)@, i as int);
                }
                self.records[i] = updated;
                proof {
                    assert(self@ =~= old(self)@.update(
                        i as int,
                        with_selected(old(self)@[i as int], !old(self)@[i as int].selected),
                    ));
                    assert(unique_addresses(self@)) by {
                        assert(forall|t: int|
                            0 <= t < self@.len() ==> (#[trigger] self@[t].address) == old(
                                self,
                            )@[t].address);
                    }
                }
                new_flag
            },
        }
    }

    /// Sets every record's selection flag to `value`.
    pub fn set_all(&mut self, value: bool)
        requires
            old(self).wf(),
        ensures
            final(self).wf(),
            final(self)@ == all_set(old(self)@, value),
    {
        let n = self.records.len();
        let mut i: usize = 0;
        while i < n
            invariant
                old(self).wf(),
                n == self.records@.len(),
                self.records@.len() == old(self).records@.len(),
                i <= n,
                forall|t: int|
                    i <= t < n ==> (#[trigger] self@[t]) == old(self)@[t],
                forall|t: int|
                    0 <= t < i ==> (#[trigger] self@[t]) == with_selected(old(self)@[t], value),
            decreases n - i,
        {
            let ghost prev = self@;
            let new_flag = value;
            let rec = self.records[i].duplicate();
            let updated = AccountRecord {
                address: rec.address,
                address_raw: rec.address_raw,
                mint: rec.mint,
                mint_raw: rec.mint_raw,
                raw_balance: rec.raw_balance,
                display_balance: rec.display_balance,
                selected: new_flag,
            };
            self.records[i] = updated;
            proof {
                assert(self@ =~= prev.update(i as int, with_selected(prev[i as int], value)));
            }
            i += 1;
        }
        proof {
            assert(self@ =~= all_set(old(self)@, value));
            assert(unique_addresses(self@)) by {
                assert(forall|t: int|
                    0 <= t < self@.len() ==> (#[trigger] self@[t].address) == old(
                        self,
                    )@[t].address);
            }
        }
    }

    /// Loads the directory from the raw entries the upstream source handed
    /// over: every entry must decode, the first malformed one fails the
    /// whole load, and later entries whose address already occurred are
    /// dropped, so that no two records share an address.
    pub fn load(raw: &Vec<RawRecord>) -> (r: Result<Directory, SweepError>)
        ensures
            (r is Ok) == (forall|i: int| 0 <= i < raw@.len() ==> raw_valid(#[trigger] raw@[i])),
            r is Ok ==> r.unwrap()@ == dedup_by_address(decoded_models(raw@)),
            r is Ok ==> r.unwrap().wf(),
            r is Err ==> exists|i: int|
                #![auto]
                {
                    &&& 0 <= i < raw@.len()
                    &&& !raw_valid(raw@[i])
                    &&& (forall|t: int| 0 <= t < i ==> raw_valid(#[trigger] raw@[t]))
                    &&& r == Err::<Directory, SweepError>(
                        SweepError::SourceParse(parse_fault_of(raw@[i])),
                    )
                },
    {
        let mut records: Vec<AccountRecord> = Vec::new();
        let mut i: usize = 0;
        proof {
            assert(models_of(records@) =~= dedup_by_address(
                decoded_models(raw@.subrange(0, 0)),
            ));
        }
        while i < raw.len()
            invariant
                i <= raw@.len(),
                forall|t: int| 0 <= t < i ==> raw_valid(#[trigger] raw@[t]),
                models_of(records@) == dedup_by_address(decoded_models(raw@.subrange(0, i as int))),
                forall|t: int|
                    0 <= t < models_of(records@).len() ==> record_wf(
                        #[trigger] models_of(records@)[t],
                    ),
            decreases raw@.len() - i,
        {
            let ghost prefix = raw@.subrange(0, i as int);
            let ghost dprefix = decoded_models(prefix);
            proof {
                assert(raw@.subrange(0, i + 1).drop_last() =~= prefix);
                assert(raw@.subrange(0, i + 1).last() == raw@[i as int]);
                assert(decoded_models(raw@.subrange(0, i + 1)).drop_last() =~= dprefix);
                assert(decoded_models(raw@.subrange(0, i + 1)).last() == decoded_model(
                    raw@[i as int],
                ));
            }
            let rec = match decode_record(&raw[i]) {
                Ok(rec) => rec,
                Err(e) => {
                    return Err(e);
                },
            };
            proof {
                lemma_dedup_by_address(dprefix);
            }
            if find_address(&records, &rec.address).is_none() {
                proof {
                    assert(rec@.address == decoded_model(raw@[i as int]).address);
                    assert(!has_address(dprefix, rec@.address));
                }
                records.push(rec);
                proof {
                    assert(models_of(records@) =~= dedup_by_address(dprefix).push(
                        decoded_model(raw@[i as int]),
                    ));
                }
            } else {
                proof {
                    assert(has_address(dedup_by_address(dprefix), rec@.address));
                    assert(has_address(dprefix, rec@.address));
                }
            }
            i += 1;
        }
        proof {
            assert(raw@.subrange(0, raw@.len() as int) =~= raw@);
            lemma_dedup_by_address(decoded_models(raw@));
        }
        let dir = Directory { records };
        let n = dir.records.len();
        proof {
            assert(dir@.len() <= usize::MAX);
        }
        Ok(dir)
    }

    /// A snapshot of all currently selected records, in directory order.
    pub fn selected_records(&self) -> (r: Vec<AccountRecord>)
        ensures
            models_of(r@) == selected_models(self@),
    {
        let mut r: Vec<AccountRecord> = Vec::new();
        let mut i: usize = 0;
        while i < self.records.len()
            invariant
                i <= self.records@.len(),
                models_of(r@) == selected_models(self@.subrange(0, i as int)),
            decreases self.records@.len() - i,
        {
            let ghost prefix = self@.subrange(0, i as int);
            proof {
                reveal(Seq::filter);
                assert(self@.subrange(0, i + 1).drop_last() =~= prefix);
                assert(self@.subrange(0, i + 1).last() == self@[i as int]);
            }
            if self.records[i].selected {
                let copy = self.records[i].duplicate();
                r.push(copy);
                proof {
                    assert(models_of(r@) =~= selected_models(prefix).push(self@[i as int]));
                    assert(selected_models(self@.subrange(0, i + 1)) == selected_models(
                        prefix,
                    ).push(self@[i as int]));
                }
            } else {
                proof {
                    assert(models_of(r@) =~= selected_models(prefix));
                    assert(selected_models(self@.subrange(0, i + 1)) == selected_models(prefix));
                }
            }
            i += 1;
        }
        proof {
            assert(self@.subrange(0, self@.len() as int) =~= self@);
        }
        r
    }
}

} // verus!
