//! The record sets stored at one owner name of a zone.
use crate::datasrc::error::DataSrcError;
use crate::name::Name;
use crate::rr::{copy_rdatas, rdatas_view, RData, RDataV, RRType, RRset, RRsetV, CLASS_IN};
use crate::seqs::{first_index, lemma_first_index, lemma_first_index_is};
use vstd::prelude::*;

verus! {

/// The records of one type stored at a name: type, TTL and record data.
pub struct RRsetTuple {
    pub typ: RRType,
    pub ttl: u32,
    pub rdatas: Vec<RData>,
}

/// The abstract value of an `RRsetTuple`.
pub struct TupleV {
    pub typ: RRType,
    pub ttl: u32,
    pub rdatas: Seq<RDataV>,
}

impl View for RRsetTuple {
    type V = TupleV;

    open spec fn view(&self) -> TupleV {
        TupleV { typ: self.typ, ttl: self.ttl, rdatas: rdatas_view(self.rdatas@) }
    }
}

/// The views of a vector of tuples.
pub open spec fn tuples_view(v: Seq<RRsetTuple>) -> Seq<TupleV> {
    v.map_values(|t: RRsetTuple| t@)
}

/// The types of the tuples, in order.
pub open spec fn types_of(s: Seq<TupleV>) -> Seq<RRType> {
    s.map_values(|t: TupleV| t.typ)
}

/// The position of the tuple of type `t`, or -1.
pub open spec fn type_index(s: Seq<TupleV>, t: RRType) -> int {
    first_index(types_of(s), t)
}

/// A CNAME or SOA record set holds exactly one record, which an addition replaces.
pub open spec fn is_exclusive(t: RRType) -> bool {
    t == RRType::CNAME || t == RRType::SOA
}

/// Types occur once each, and a CNAME has its name to itself.
pub open spec fn tuples_wf(s: Seq<TupleV>) -> bool {
    &&& forall|i: int, j: int| 0 <= i < j < s.len() ==> s[i].typ != s[j].typ
    &&& type_index(s, RRType::CNAME) >= 0 ==> s.len() == 1
}

/// The error, if any, that a record set is refused with before any change.
pub open spec fn invalid_rrset(r: RRsetV) -> bool {
    r.rdatas.len() == 0 || (is_exclusive(r.typ) && r.rdatas.len() != 1)
}

/// A tuple after a record set of its type was added to it.
pub open spec fn merged(t: TupleV, r: RRsetV) -> TupleV {
    TupleV {
        typ: t.typ,
        ttl: r.ttl,
        rdatas: if is_exclusive(r.typ) {
            r.rdatas
        } else {
            t.rdatas + r.rdatas
        },
    }
}

/// A record set of a type not yet present is refused because of a CNAME.
pub open spec fn cname_conflict(s: Seq<TupleV>, r: RRsetV) -> bool {
    (r.typ == RRType::CNAME && s.len() > 0) || (r.typ != RRType::CNAME && type_index(s, RRType::CNAME) >= 0)
}

/// The tuples after `r` was added, where the addition succeeds.
pub open spec fn added(s: Seq<TupleV>, r: RRsetV) -> Seq<TupleV> {
    let i = type_index(s, r.typ);
    if i >= 0 {
        s.update(i, merged(s[i], r))
    } else {
        s.push(TupleV { typ: r.typ, ttl: r.ttl, rdatas: r.rdatas })
    }
}

/// Whether adding `r` succeeds.
pub open spec fn add_succeeds(s: Seq<TupleV>, r: RRsetV) -> bool {
    !invalid_rrset(r) && (type_index(s, r.typ) >= 0 || !cname_conflict(s, r))
}

/// Deletes the record data `dels` one after another, each at its first
/// occurrence; stops at the first that is missing and gives it back.
pub open spec fn delete_all(cur: Seq<RDataV>, dels: Seq<RDataV>) -> (Seq<RDataV>, Option<RDataV>)
    decreases dels.len(),
{
    if dels.len() == 0 {
        (cur, None)
    } else {
        let k = first_index(cur, dels[0]);
        if k < 0 {
            (cur, Some(dels[0]))
        } else {
            delete_all(cur.remove(k), dels.drop_first())
        }
    }
}

/// The record sets after `Rdataset::delete_rdata` removed the records of `r`.
pub open spec fn rdata_deleted(s: Seq<TupleV>, r: RRsetV) -> Seq<TupleV> {
    let i = type_index(s, r.typ);
    if i < 0 {
        s
    } else {
        let rest = delete_all(s[i].rdatas, r.rdatas).0;
        if rest.len() == 0 {
            s.remove(i)
        } else {
            s.update(i, TupleV { typ: s[i].typ, ttl: s[i].ttl, rdatas: rest })
        }
    }
}

/// Whether `Rdataset::delete_rdata` of `r` succeeds: a set of its type is
/// there and holds each of its records.
pub open spec fn rdata_delete_succeeds(s: Seq<TupleV>, r: RRsetV) -> bool {
    type_index(s, r.typ) >= 0 && delete_all(s[type_index(s, r.typ)].rdatas, r.rdatas).1 is None
}

/// The record sets after `Rdataset::update_rdata` replaced the records of
/// `old` by those of `new`.
pub open spec fn rdata_updated(s: Seq<TupleV>, old: RRsetV, new: RRsetV) -> Seq<TupleV> {
    let i = type_index(s, old.typ);
    if i < 0 {
        s
    } else {
        match update_all(s[i].rdatas, old.rdatas, new.rdatas, 0) {
            UpdateOutcome::Done(cur) => s.update(i, TupleV { typ: s[i].typ, ttl: s[i].ttl, rdatas: cur }),
            UpdateOutcome::Missing(cur, _) => s.update(i, TupleV { typ: s[i].typ, ttl: s[i].ttl, rdatas: cur }),
            UpdateOutcome::OutOfRange => s,
        }
    }
}

/// Whether `Rdataset::update_rdata` succeeds: a set of the type is there
/// and holds each record to replace.
pub open spec fn rdata_update_succeeds(s: Seq<TupleV>, old: RRsetV, new: RRsetV) -> bool {
    type_index(s, old.typ) >= 0 && update_all(s[type_index(s, old.typ)].rdatas, old.rdatas, new.rdatas, 0) is Done
}

/// Whether `Rdataset::update_rdata` can be done: the new set has a record
/// for each old record replaced.
pub open spec fn rdata_update_in_range(s: Seq<TupleV>, old: RRsetV, new: RRsetV) -> bool {
    type_index(s, old.typ) >= 0 ==> !(update_all(s[type_index(s, old.typ)].rdatas, old.rdatas, new.rdatas, 0) is OutOfRange)
}

/// The outcome of replacing record data one by one.
pub enum UpdateOutcome {
    Done(Seq<RDataV>),
    Missing(Seq<RDataV>, RDataV),
    OutOfRange,
}

/// Replaces, for each position from `pos` on, the first occurrence of
/// `olds[pos]` by `news[pos]`; stops at the first old record data that is
/// missing. `OutOfRange` where `news` is too short for a replacement.
pub open spec fn update_all(cur: Seq<RDataV>, olds: Seq<RDataV>, news: Seq<RDataV>, pos: int) -> UpdateOutcome
    decreases olds.len() - pos,
{
    if pos < 0 || pos >= olds.len() {
        UpdateOutcome::Done(cur)
    } else {
        let k = first_index(cur, olds[pos]);
        if k < 0 {
            UpdateOutcome::Missing(cur, olds[pos])
        } else if pos >= news.len() {
            UpdateOutcome::OutOfRange
        } else {
            update_all(cur.update(k, news[pos]), olds, news, pos + 1)
        }
    }
}

/// The record sets stored at one owner name.
pub struct Rdataset {
    rrsets: Vec<RRsetTuple>,
}

impl View for Rdataset {
    type V = Seq<TupleV>;

    closed spec fn view(&self) -> Seq<TupleV> {
        tuples_view(self.rrsets@)
    }
}

proof fn lemma_tuples_view_push(v: Seq<RRsetTuple>, x: RRsetTuple)
    ensures
        tuples_view(v.push(x)) == tuples_view(v).push(x@),
{
    assert(tuples_view(v.push(x)) =~= tuples_view(v).push(x@));
}

proof fn lemma_types_of_index(s: Seq<TupleV>)
    ensures
        types_of(s).len() == s.len(),
        forall|j: int| 0 <= j < s.len() ==> #[trigger] types_of(s)[j] == s[j].typ,
{
}

/// The position of the first record equal to `x`.
fn find_rdata(v: &Vec<RData>, x: &RData) -> (r: Option<usize>)
    ensures
        match r {
            Some(k) => k == first_index(rdatas_view(v@), x@) && k < v@.len(),
            None => first_index(rdatas_view(v@), x@) < 0,
        },
{
    let ghost vv = rdatas_view(v@);
    let mut k: usize = 0;
    while k < v.len()
        invariant
            k <= v.len(),
            vv == rdatas_view(v@),
            forall|j: int| 0 <= j < k ==> vv[j] != x@,
        decreases v.len() - k,
    {
        if x.eq_rdata(&v[k]) {
            proof {
                lemma_first_index_is(vv, x@, k as int);
            }
            return Some(k);
        }
        k = k + 1;
    }
    proof {
        lemma_first_index_is(vv, x@, -1);
    }
    None
}

proof fn lemma_tuples_view_insert(v: Seq<RRsetTuple>, i: int, x: RRsetTuple)
    requires
        0 <= i <= v.len(),
    ensures
        tuples_view(v.insert(i, x)) == tuples_view(v).insert(i, x@),
{
    assert(tuples_view(v.insert(i, x)) =~= tuples_view(v).insert(i, x@));
}

proof fn lemma_tuples_view_remove(v: Seq<RRsetTuple>, i: int)
    requires
        0 <= i < v.len(),
    ensures
        tuples_view(v.remove(i)) == tuples_view(v).remove(i),
{
    assert(tuples_view(v.remove(i)) =~= tuples_view(v).remove(i));
}

proof fn lemma_remove_insert_is_update(s: Seq<TupleV>, i: int, y: TupleV)
    requires
        0 <= i < s.len(),
    ensures
        s.remove(i).insert(i, y) == s.update(i, y),
{
    assert(s.remove(i).insert(i, y) =~= s.update(i, y));
}

impl Rdataset {
    /// An empty set of record sets.
    pub fn new() -> (r: Rdataset)
        ensures
            r@ == Seq::<TupleV>::empty(),
            tuples_wf(r@),
    {
        let r = Rdataset { rrsets: Vec::new() };
        proof {
            assert(r@ =~= Seq::<TupleV>::empty());
            lemma_first_index(types_of(r@), RRType::CNAME);
        }
        r
    }

    /// The position of the tuple of type `typ`.
    fn get_rrset_tuple(&self, typ: RRType) -> (r: Option<usize>)
        ensures
            match r {
                Some(i) => i == type_index(self@, typ) && i < self@.len(),
                None => type_index(self@, typ) < 0,
            },
    {
        let mut i: usize = 0;
        while i < self.rrsets.len()
            invariant
                i <= self.rrsets.len(),
                forall|j: int| 0 <= j < i ==> types_of(self@)[j] != typ,
            decreases self.rrsets.len() - i,
        {
            proof {
                lemma_types_of_index(self@);
            }
            if self.rrsets[i].typ == typ {
                proof {
                    lemma_first_index_is(types_of(self@), typ, i as int);
                }
                return Some(i);
            }
            i = i + 1;
        }
        proof {
            lemma_types_of_index(self@);
            lemma_first_index_is(types_of(self@), typ, -1);
        }
        None
    }

    /// Whether a record set of type `typ` is present.
    pub fn has_type(&self, typ: RRType) -> (r: bool)
        ensures
            r == (type_index(self@, typ) >= 0),
    {
        self.get_rrset_tuple(typ).is_some()
    }

    /// Checks that a record set may be stored: it has record data, and a
    /// CNAME or SOA has exactly one.
    pub fn validate_rrset(&self, rrset: &RRset) -> (r: Result<(), DataSrcError>)
        ensures
            rrset@.rdatas.len() == 0 ==> r matches Err(DataSrcError::RRsetHasNoRdata),
            rrset@.rdatas.len() != 0 && is_exclusive(rrset.typ) && rrset@.rdatas.len() != 1
                ==> r matches Err(DataSrcError::ExclusiveRRsetHasMoreThanOneRdata),
            !invalid_rrset(rrset@) ==> r is Ok,
    {
        if rrset.rdatas.len() == 0 {
            Err(DataSrcError::RRsetHasNoRdata)
        } else if (rrset.typ == RRType::CNAME || rrset.typ == RRType::SOA) && rrset.rdatas.len() != 1 {
            Err(DataSrcError::ExclusiveRRsetHasMoreThanOneRdata)
        } else {
            Ok(())
        }
    }

    /// Adds a record set: a type already present takes the new TTL and gains
    /// the new records (a CNAME or SOA has them replaced); a new type is
    /// refused where it would share the name with a CNAME.
    pub fn add_rrset(&mut self, rrset: RRset) -> (r: Result<(), DataSrcError>)
        requires
            tuples_wf(old(self)@),
        ensures
            tuples_wf(final(self)@),
            r is Ok <==> add_succeeds(old(self)@, rrset@),
            r is Ok ==> final(self)@ == added(old(self)@, rrset@),
            r is Err ==> final(self)@ == old(self)@,
            rrset@.rdatas.len() == 0 ==> r matches Err(DataSrcError::RRsetHasNoRdata),
            rrset@.rdatas.len() != 0 && is_exclusive(rrset.typ) && rrset@.rdatas.len() != 1
                ==> r matches Err(DataSrcError::ExclusiveRRsetHasMoreThanOneRdata),
            !invalid_rrset(rrset@) && type_index(old(self)@, rrset.typ) < 0 && cname_conflict(
                old(self)@,
                rrset@,
            ) ==> r matches Err(DataSrcError::CNameCoExistsWithOtherRR),
    {
        let v = self.validate_rrset(&rrset);
        if v.is_err() {
            return v;
        }
        let ghost s = self@;
        let ghost rv = rrset@;
        proof {
            lemma_types_of_index(s);
            lemma_first_index(types_of(s), rrset.typ);
            lemma_first_index(types_of(s), RRType::CNAME);
        }
        match self.get_rrset_tuple(rrset.typ) {
            Some(index) => {
                let mut t = self.rrsets.remove(index);
                let RRset { name: _, typ, class: _, ttl, rdatas: mut new_rdatas } = rrset;
                t.ttl = ttl;
                if typ == RRType::CNAME || typ == RRType::SOA {
                    t.rdatas = new_rdatas;
                } else {
                    t.rdatas.append(&mut new_rdatas);
                    proof {
                        assert(rdatas_view(t.rdatas@) =~= s[index as int].rdatas + rv.rdatas);
                    }
                }
                proof {
                    assert(t@ == merged(s[index as int], rv));
                }
                self.rrsets.insert(index, t);
                proof {
                    assert(self@ =~= s.update(index as int, merged(s[index as int], rv)));
                    self.lemma_same_types_keeps_wf(s);
                }
                Ok(())
            },
            None => {
                if rrset.typ == RRType::CNAME && self.rrsets.len() > 0 {
                    return Err(DataSrcError::CNameCoExistsWithOtherRR);
                }
                if rrset.typ != RRType::CNAME && self.get_rrset_tuple(RRType::CNAME).is_some() {
                    return Err(DataSrcError::CNameCoExistsWithOtherRR);
                }
                let RRset { name: _, typ, class: _, ttl, rdatas } = rrset;
                let t = RRsetTuple { typ, ttl, rdatas };
                proof {
                    lemma_tuples_view_push(self.rrsets@, t);
                }
                self.rrsets.push(t);
                proof {
                    lemma_types_of_index(self@);
                    assert(self@ =~= s.push(TupleV { typ: typ, ttl: ttl, rdatas: rv.rdatas }));
                    assert forall|i: int, j: int| 0 <= i < j < self@.len() implies self@[i].typ != self@[j].typ by {
                        if j < s.len() {
                            assert(s[i].typ != s[j].typ);
                        } else {
                            assert(types_of(s)[i] != typ);
                        }
                    }
                    if typ == RRType::CNAME {
                        assert(s.len() == 0);
                        lemma_first_index_is(types_of(self@), RRType::CNAME, 0);
                    } else {
                        assert(types_of(self@)[s.len() as int] != RRType::CNAME);
                        assert forall|j: int| 0 <= j < self@.len() implies types_of(self@)[j] != RRType::CNAME by {
                            if j < s.len() {
                                assert(types_of(s)[j] != RRType::CNAME);
                            }
                        }
                        lemma_first_index_is(types_of(self@), RRType::CNAME, -1);
                    }
                }
                Ok(())
            },
        }
    }

    /// The record set of type `typ`, with owner `name`, if present.
    pub fn get_rrset(&self, name: &Name, typ: RRType) -> (r: Option<RRset>)
        ensures
            type_index(self@, typ) < 0 ==> r is None,
            type_index(self@, typ) >= 0 ==> (r matches Some(rr) && rr@ == (RRsetV {
                name: name@,
                typ: typ,
                class: CLASS_IN,
                ttl: self@[type_index(self@, typ)].ttl,
                rdatas: self@[type_index(self@, typ)].rdatas,
            })),
    {
        match self.get_rrset_tuple(typ) {
            Some(index) => {
                let t = &self.rrsets[index];
                Some(RRset {
                    name: name.copy(),
                    typ,
                    class: CLASS_IN,
                    ttl: t.ttl,
                    rdatas: copy_rdatas(&t.rdatas),
                })
            },
            None => None,
        }
    }

    /// Removes the record set of type `typ`.
    /// Whether no record set is left.
    pub fn is_empty(&self) -> (r: bool)
        ensures
            r == (self@.len() == 0),
    {
        self.rrsets.len() == 0
    }

    pub fn delete_rrset(&mut self, typ: RRType) -> (r: Result<(), DataSrcError>)
        requires
            tuples_wf(old(self)@),
        ensures
            tuples_wf(final(self)@),
            type_index(old(self)@, typ) < 0 ==> (r matches Err(DataSrcError::RRsetNotFound(t)) && t == typ
                && final(self)@ == old(self)@),
            type_index(old(self)@, typ) >= 0 ==> r is Ok && final(self)@ == old(self)@.remove(
                type_index(old(self)@, typ),
            ),
    {
        match self.get_rrset_tuple(typ) {
            Some(index) => {
                let ghost s = self@;
                self.rrsets.remove(index);
                proof {
                    assert(self@ =~= s.remove(index as int));
                    self.lemma_remove_keeps_wf(s, index as int);
                }
                Ok(())
            },
            None => Err(DataSrcError::RRsetNotFound(typ)),
        }
    }

    proof fn lemma_remove_keeps_wf(&self, s: Seq<TupleV>, k: int)
        requires
            tuples_wf(s),
            0 <= k < s.len(),
            self@ == s.remove(k),
        ensures
            tuples_wf(self@),
    {
        let t = self@;
        lemma_types_of_index(s);
        lemma_types_of_index(t);
        lemma_first_index(types_of(s), RRType::CNAME);
        lemma_first_index(types_of(t), RRType::CNAME);
        assert forall|i: int, j: int| 0 <= i < j < t.len() implies t[i].typ != t[j].typ by {
            let ii = if i < k { i } else { i + 1 };
            let jj = if j < k { j } else { j + 1 };
            assert(t[i] == s[ii]);
            assert(t[j] == s[jj]);
        }
        if type_index(t, RRType::CNAME) >= 0 {
            let c = type_index(t, RRType::CNAME);
            let cc = if c < k { c } else { c + 1 };
            assert(s[cc].typ == RRType::CNAME);
            assert(types_of(s)[cc] == RRType::CNAME);
        }
    }

    /// Removes the records of `rrset` from the record set of its type, one
    /// after another; the record set goes when it is left empty. A missing
    /// record stops the removal and is reported; those removed before it stay
    /// removed, and a record set left empty goes all the same.
    pub fn delete_rdata(&mut self, rrset: &RRset) -> (r: Result<(), DataSrcError>)
        requires
            tuples_wf(old(self)@),
        ensures
            tuples_wf(final(self)@),
            ({
                let s = old(self)@;
                let i = type_index(s, rrset.typ);
                let (rest, missing) = delete_all(s[i].rdatas, rrset@.rdatas);
                &&& i < 0 ==> (r matches Err(DataSrcError::RRsetNotFound(t)) && t == rrset.typ
                    && final(self)@ == s)
                &&& i >= 0 && missing is Some ==> (r matches Err(DataSrcError::RdataNotFound(d))
                    && Some(d@) == missing && final(self)@ == if rest.len() == 0 {
                    s.remove(i)
                } else {
                    s.update(i, TupleV { typ: s[i].typ, ttl: s[i].ttl, rdatas: rest })
                })
                &&& i >= 0 && missing is None && rest.len() == 0 ==> r is Ok && final(self)@ == s.remove(i)
                &&& i >= 0 && missing is None && rest.len() > 0 ==> r is Ok && final(self)@ == s.update(
                    i,
                    TupleV { typ: s[i].typ, ttl: s[i].ttl, rdatas: rest },
                )
            }),
            final(self)@ == rdata_deleted(old(self)@, rrset@),
            r is Ok <==> rdata_delete_succeeds(old(self)@, rrset@),
    {
        let ghost s = self@;
        let index = match self.get_rrset_tuple(rrset.typ) {
            Some(index) => index,
            None => {
                return Err(DataSrcError::RRsetNotFound(rrset.typ));
            },
        };
        proof {
            lemma_tuples_view_remove(self.rrsets@, index as int);
        }
        let mut t = self.rrsets.remove(index);
        let ghost dels = rrset@.rdatas;
        let ghost target = delete_all(s[index as int].rdatas, dels);
        proof {
            assert(t@ == s[index as int]);
            assert(dels.subrange(0, dels.len() as int) =~= dels);
        }
        let mut p: usize = 0;
        while p < rrset.rdatas.len()
            invariant
                p <= rrset.rdatas.len(),
                dels == rdatas_view(rrset.rdatas@),
                dels.len() == rrset.rdatas.len(),
                index == type_index(s, rrset.typ),
                s == old(self)@,
                target == delete_all(s[index as int].rdatas, dels),
                0 <= index < s.len(),
                tuples_wf(s),
                self.rrsets@.len() == s.len() - 1,
                self@ == s.remove(index as int),
                t.typ == s[index as int].typ,
                t.ttl == s[index as int].ttl,
                target == delete_all(t@.rdatas, dels.subrange(p as int, dels.len() as int)),
            decreases rrset.rdatas.len() - p,
        {
            let ghost cur = t@.rdatas;
            let ghost rest = dels.subrange(p as int, dels.len() as int);
            proof {
                assert(rest[0] == dels[p as int]);
                assert(rest.drop_first() =~= dels.subrange(p + 1, dels.len() as int));
            }
            let kk = find_rdata(&t.rdatas, &rrset.rdatas[p]);
            proof {
                assert(rrset.rdatas@[p as int]@ == dels[p as int]);
            }
            if kk.is_none() {
                proof {
                    assert(target == (cur, Some(rest[0])));
                }
                let d = rrset.rdatas[p].copy();
                proof {
                    assert(d@ == rest[0]);
                    assert(target.1 == Some(d@));
                    assert(target.0 == cur);
                }
                if t.rdatas.len() == 0 {
                    proof {
                        self.lemma_remove_keeps_wf(s, index as int);
                    }
                    return Err(DataSrcError::RdataNotFound(d));
                }
                proof {
                    lemma_tuples_view_insert(self.rrsets@, index as int, t);
                    lemma_remove_insert_is_update(s, index as int, t@);
                }
                self.rrsets.insert(index, t);
                proof {
                    assert(self@ =~= s.update(index as int, TupleV { typ: s[index as int].typ, ttl: s[index as int].ttl, rdatas: cur }));
                    self.lemma_same_types_keeps_wf(s);
                }
                return Err(DataSrcError::RdataNotFound(d));
            }
            let k = kk.unwrap();
            t.rdatas.remove(k);
            proof {
                assert(t@.rdatas =~= cur.remove(k as int));
            }
            p = p + 1;
        }
        proof {
            assert(dels.subrange(p as int, dels.len() as int) =~= Seq::<RDataV>::empty());
            assert(target == (t@.rdatas, None::<RDataV>));
        }
        if t.rdatas.len() == 0 {
            proof {
                self.lemma_remove_keeps_wf(s, index as int);
            }
        } else {
            proof {
                lemma_tuples_view_insert(self.rrsets@, index as int, t);
                lemma_remove_insert_is_update(s, index as int, t@);
            }
            self.rrsets.insert(index, t);
            proof {
                assert(self@ =~= s.update(index as int, TupleV { typ: s[index as int].typ, ttl: s[index as int].ttl, rdatas: target.0 }));
                self.lemma_same_types_keeps_wf(s);
            }
        }
        Ok(())
    }

    proof fn lemma_same_types_keeps_wf(&self, s: Seq<TupleV>)
        requires
            tuples_wf(s),
            self@.len() == s.len(),
            forall|j: int| 0 <= j < s.len() ==> self@[j].typ == s[j].typ,
        ensures
            tuples_wf(self@),
    {
        lemma_types_of_index(s);
        lemma_types_of_index(self@);
        assert(types_of(self@) =~= types_of(s));
        assert forall|i: int, j: int| 0 <= i < j < self@.len() implies self@[i].typ != self@[j].typ by {
            assert(s[i].typ != s[j].typ);
        }
    }

    /// Replaces records of the record set of `old_rrset`'s type: for each
    /// record of `old_rrset`, in order, its first occurrence takes the record
    /// of `new_rrset` at the same position. A missing record stops the
    /// replacement and is reported; the TTL is kept.
    pub fn update_rdata(&mut self, old_rrset: &RRset, new_rrset: RRset) -> (r: Result<(), DataSrcError>)
        requires
            tuples_wf(old(self)@),
            type_index(old(self)@, old_rrset.typ) >= 0 ==> !(update_all(
                old(self)@[type_index(old(self)@, old_rrset.typ)].rdatas,
                old_rrset@.rdatas,
                new_rrset@.rdatas,
                0,
            ) is OutOfRange),
        ensures
            tuples_wf(final(self)@),
            ({
                let s = old(self)@;
                let i = type_index(s, old_rrset.typ);
                let out = update_all(s[i].rdatas, old_rrset@.rdatas, new_rrset@.rdatas, 0);
                &&& i < 0 ==> (r matches Err(DataSrcError::RRsetNotFound(t)) && t == old_rrset.typ
                    && final(self)@ == s)
                &&& i >= 0 ==> match out {
                    UpdateOutcome::Done(cur) => r is Ok && final(self)@ == s.update(
                        i,
                        TupleV { typ: s[i].typ, ttl: s[i].ttl, rdatas: cur },
                    ),
                    UpdateOutcome::Missing(cur, d) => r matches Err(DataSrcError::RdataNotFound(e))
                        && e@ == d && final(self)@ == s.update(
                        i,
                        TupleV { typ: s[i].typ, ttl: s[i].ttl, rdatas: cur },
                    ),
                    UpdateOutcome::OutOfRange => false,
                }
            }),
            final(self)@ == rdata_updated(old(self)@, old_rrset@, new_rrset@),
            r is Ok <==> rdata_update_succeeds(old(self)@, old_rrset@, new_rrset@),
    {
        let ghost s = self@;
        let index = match self.get_rrset_tuple(old_rrset.typ) {
            Some(index) => index,
            None => {
                return Err(DataSrcError::RRsetNotFound(old_rrset.typ));
            },
        };
        proof {
            lemma_tuples_view_remove(self.rrsets@, index as int);
        }
        let mut t = self.rrsets.remove(index);
        let ghost olds = old_rrset@.rdatas;
        let ghost news = new_rrset@.rdatas;
        let ghost target = update_all(s[index as int].rdatas, olds, news, 0);
        proof {
            assert(t@ == s[index as int]);
        }
        let mut pos: usize = 0;
        while pos < old_rrset.rdatas.len()
            invariant
                pos <= old_rrset.rdatas.len(),
                olds == rdatas_view(old_rrset.rdatas@),
                olds.len() == old_rrset.rdatas.len(),
                news == rdatas_view(new_rrset.rdatas@),
                news.len() == new_rrset.rdatas.len(),
                index == type_index(s, old_rrset.typ),
                s == old(self)@,
                target == update_all(s[index as int].rdatas, olds, news, 0),
                0 <= index < s.len(),
                tuples_wf(s),
                self.rrsets@.len() == s.len() - 1,
                self@ == s.remove(index as int),
                t.typ == s[index as int].typ,
                t.ttl == s[index as int].ttl,
                target == update_all(t@.rdatas, olds, news, pos as int),
                !(target is OutOfRange),
            decreases old_rrset.rdatas.len() - pos,
        {
            let ghost cur = t@.rdatas;
            let kk = find_rdata(&t.rdatas, &old_rrset.rdatas[pos]);
            proof {
                assert(old_rrset.rdatas@[pos as int]@ == olds[pos as int]);
            }
            if kk.is_none() {
                let d = old_rrset.rdatas[pos].copy();
                proof {
                    lemma_tuples_view_insert(self.rrsets@, index as int, t);
                    lemma_remove_insert_is_update(s, index as int, t@);
                }
                self.rrsets.insert(index, t);
                proof {
                    assert(self@ =~= s.update(index as int, TupleV { typ: s[index as int].typ, ttl: s[index as int].ttl, rdatas: cur }));
                    self.lemma_same_types_keeps_wf(s);
                }
                return Err(DataSrcError::RdataNotFound(d));
            }
            let k = kk.unwrap();
            proof {
                assert(pos < news.len());
            }
            let x = new_rrset.rdatas[pos].copy();
            t.rdatas.set(k, x);
            proof {
                assert(t@.rdatas =~= cur.update(k as int, news[pos as int]));
            }
            pos = pos + 1;
        }
        proof {
            lemma_tuples_view_insert(self.rrsets@, index as int, t);
            lemma_remove_insert_is_update(s, index as int, t@);
        }
        self.rrsets.insert(index, t);
        proof {
            assert(self@ =~= s.update(index as int, TupleV { typ: s[index as int].typ, ttl: s[index as int].ttl, rdatas: t@.rdatas }));
            self.lemma_same_types_keeps_wf(s);
        }
        Ok(())
    }
}

} // verus!
