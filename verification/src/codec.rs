//! Persistence: a deterministic byte format for a [`Kangaroo`], with a
//! proved round trip. Generation is expensive and solving is repeated many
//! times against one table, so a loaded table must be exactly the one that
//! was kept.
//!
//! Layout: five parameter fields (`i`, `W`, `N`, `R` as little-endian
//! 64-bit words, then `secret_size` as one byte), the `R` jump logs (32
//! bytes each), the `R` jump points (32 bytes each), the record count (a
//! little-endian 64-bit word), and the records (32 key bytes, then 32 log
//! bytes). Loading checks every scalar and every jump point for
//! canonicity, and the parameters for validity, before a query can see them.

use vstd::prelude::*;
use crate::bytes::{
    extend_bytes, le_val, lemma_le_val_u64_le, push_u64_le, read_u64_le, sub_bytes, u64_le,
};
use crate::group::{
    group_order, is_point_encoding, point_from_bytes, scalar_from_canonical_bytes, GroupPoint,
    GroupScalar,
};
use crate::kangaroo::{Kangaroo, Parameters, Table, TableEntry};
use crate::Error;

verus! {

/// The persisted shape of a [`Kangaroo`]: its parameters and the byte
/// encodings of its jump logs, jump points and map records.
pub ghost struct KangarooModel {
    pub parameters: Parameters,
    pub slog: Seq<Seq<u8>>,
    pub s: Seq<Seq<u8>>,
    pub entries: Seq<(Seq<u8>, Seq<u8>)>,
}

impl KangarooModel {
    /// A model that a valid [`Kangaroo`] can have: valid parameters, `R`
    /// canonical scalars and point encodings, and records of 32 key bytes
    /// with a canonical scalar each.
    pub open spec fn wf(self) -> bool {
        &&& self.parameters.wf()
        &&& self.slog.len() == self.parameters.R
        &&& self.s.len() == self.parameters.R
        &&& forall|j: int|
            0 <= j < self.slog.len() ==> (#[trigger] self.slog[j]).len() == 32 && le_val(
                self.slog[j],
            ) < group_order()
        &&& forall|j: int|
            0 <= j < self.s.len() ==> (#[trigger] self.s[j]).len() == 32 && is_point_encoding(
                self.s[j],
            )
        &&& forall|j: int|
            0 <= j < self.entries.len() ==> (#[trigger] self.entries[j]).0.len() == 32
                && self.entries[j].1.len() == 32 && le_val(self.entries[j].1) < group_order()
        &&& self.entries.len() <= u64::MAX
    }
}

impl Kangaroo {
    /// The model this aggregate persists as.
    pub open spec fn model(self) -> KangarooModel {
        KangarooModel {
            parameters: self.parameters,
            slog: self.table.slog@.map_values(|x: GroupScalar| x@),
            s: self.table.s@.map_values(|p: GroupPoint| p@),
            entries: self.table.table@.map_values(|e: TableEntry| (e.point@, e.log@)),
        }
    }
}

/// The 32-byte blocks of `xs`, in order.
pub open spec fn cat_blocks(xs: Seq<Seq<u8>>) -> Seq<u8>
    decreases xs.len(),
{
    if xs.len() == 0 {
        Seq::empty()
    } else {
        xs[0] + cat_blocks(xs.drop_first())
    }
}

/// The records of `es`, each as its key bytes then its log bytes.
pub open spec fn cat_entries(es: Seq<(Seq<u8>, Seq<u8>)>) -> Seq<u8>
    decreases es.len(),
{
    if es.len() == 0 {
        Seq::empty()
    } else {
        es[0].0 + es[0].1 + cat_entries(es.drop_first())
    }
}

/// What [`Kangaroo::to_bytes`] emits for a model.
pub open spec fn spec_serialize(m: KangarooModel) -> Seq<u8> {
    u64_le(m.parameters.i) + u64_le(m.parameters.W) + u64_le(m.parameters.N) + u64_le(
        m.parameters.R,
    ) + seq![m.parameters.secret_size] + cat_blocks(m.slog) + cat_blocks(m.s) + u64_le(
        m.entries.len() as u64,
    ) + cat_entries(m.entries)
}

/// Parses `n` scalar blocks at `off`: each must lie within `b` and be a
/// canonical scalar encoding.
pub open spec fn parse_scalar_blocks(b: Seq<u8>, off: int, n: int) -> Option<Seq<Seq<u8>>>
    decreases n,
{
    if n <= 0 {
        Some(Seq::empty())
    } else if off + 32 <= b.len() && le_val(b.subrange(off, off + 32)) < group_order() {
        match parse_scalar_blocks(b, off + 32, n - 1) {
            Some(rest) => Some(seq![b.subrange(off, off + 32)] + rest),
            None => None,
        }
    } else {
        None
    }
}

/// Parses `n` point blocks at `off`: each must lie within `b` and be a
/// canonical point encoding.
pub open spec fn parse_point_blocks(b: Seq<u8>, off: int, n: int) -> Option<Seq<Seq<u8>>>
    decreases n,
{
    if n <= 0 {
        Some(Seq::empty())
    } else if off + 32 <= b.len() && is_point_encoding(b.subrange(off, off + 32)) {
        match parse_point_blocks(b, off + 32, n - 1) {
            Some(rest) => Some(seq![b.subrange(off, off + 32)] + rest),
            None => None,
        }
    } else {
        None
    }
}

/// Parses `n` map records at `off`: each must lie within `b` and close with
/// a canonical scalar encoding; key bytes are stored as they are.
pub open spec fn parse_entry_blocks(b: Seq<u8>, off: int, n: int) -> Option<
    Seq<(Seq<u8>, Seq<u8>)>,
>
    decreases n,
{
    if n <= 0 {
        Some(Seq::empty())
    } else if off + 64 <= b.len() && le_val(b.subrange(off + 32, off + 64)) < group_order() {
        match parse_entry_blocks(b, off + 64, n - 1) {
            Some(rest) => Some(
                seq![(b.subrange(off, off + 32), b.subrange(off + 32, off + 64))] + rest,
            ),
            None => None,
        }
    } else {
        None
    }
}

/// What [`Kangaroo::from_bytes`] accepts: `Some` exactly on the byte strings
/// that one model serializes to, with nothing left over.
pub open spec fn spec_deserialize(b: Seq<u8>) -> Option<KangarooModel> {
    if b.len() < 33 {
        None
    } else {
        let p = Parameters {
            i: le_val(b.subrange(0, 8)) as u64,
            W: le_val(b.subrange(8, 16)) as u64,
            N: le_val(b.subrange(16, 24)) as u64,
            R: le_val(b.subrange(24, 32)) as u64,
            secret_size: b[32],
        };
        if !p.wf() {
            None
        } else {
            let moff = 33 + 64 * (p.R as int);
            match parse_scalar_blocks(b, 33, p.R as int) {
                None => None,
                Some(slog) => match parse_point_blocks(b, 33 + 32 * (p.R as int), p.R as int) {
                    None => None,
                    Some(s) => if moff + 8 > b.len() {
                        None
                    } else {
                        let m = le_val(b.subrange(moff, moff + 8));
                        match parse_entry_blocks(b, moff + 8, m as int) {
                            None => None,
                            Some(entries) => if b.len() == moff + 8 + 64 * (m as int) {
                                Some(KangarooModel { parameters: p, slog, s, entries })
                            } else {
                                None
                            },
                        }
                    },
                },
            }
        }
    }
}

pub proof fn lemma_cat_blocks_len(xs: Seq<Seq<u8>>)
    requires
        forall|j: int| 0 <= j < xs.len() ==> (#[trigger] xs[j]).len() == 32,
    ensures
        cat_blocks(xs).len() == 32 * xs.len(),
    decreases xs.len(),
{
    if xs.len() > 0 {
        lemma_cat_blocks_len(xs.drop_first());
    }
}

pub proof fn lemma_cat_entries_len(es: Seq<(Seq<u8>, Seq<u8>)>)
    requires
        forall|j: int|
            0 <= j < es.len() ==> (#[trigger] es[j]).0.len() == 32 && es[j].1.len() == 32,
    ensures
        cat_entries(es).len() == 64 * es.len(),
    decreases es.len(),
{
    if es.len() > 0 {
        lemma_cat_entries_len(es.drop_first());
    }
}

/// One more block extends the concatenation at its end.
pub proof fn lemma_cat_blocks_snoc(xs: Seq<Seq<u8>>, j: int)
    requires
        0 <= j < xs.len(),
    ensures
        cat_blocks(xs.take(j + 1)) == cat_blocks(xs.take(j)) + xs[j],
    decreases j,
{
    if j == 0 {
        assert(xs.take(0) =~= Seq::<Seq<u8>>::empty());
        assert(xs.take(1) =~= seq![xs[0]]);
        assert(seq![xs[0]].drop_first() =~= Seq::<Seq<u8>>::empty());
        assert(cat_blocks(xs.take(1)) =~= cat_blocks(xs.take(0)) + xs[0]);
    } else {
        lemma_cat_blocks_snoc(xs.drop_first(), j - 1);
        assert(xs.take(j + 1).drop_first() =~= xs.drop_first().take(j));
        assert(xs.take(j).drop_first() =~= xs.drop_first().take(j - 1));
        assert(xs.take(j + 1)[0] == xs[0]);
        assert(xs.take(j)[0] == xs[0]);
        assert(xs.drop_first()[j - 1] == xs[j]);
        assert(cat_blocks(xs.take(j + 1)) =~= cat_blocks(xs.take(j)) + xs[j]);
    }
}

/// One more record extends the concatenation at its end.
pub proof fn lemma_cat_entries_snoc(es: Seq<(Seq<u8>, Seq<u8>)>, j: int)
    requires
        0 <= j < es.len(),
    ensures
        cat_entries(es.take(j + 1)) == cat_entries(es.take(j)) + es[j].0 + es[j].1,
    decreases j,
{
    if j == 0 {
        assert(es.take(0) =~= Seq::<(Seq<u8>, Seq<u8>)>::empty());
        assert(es.take(1) =~= seq![es[0]]);
        assert(seq![es[0]].drop_first() =~= Seq::<(Seq<u8>, Seq<u8>)>::empty());
        assert(cat_entries(es.take(1)) =~= cat_entries(es.take(0)) + es[0].0 + es[0].1);
    } else {
        lemma_cat_entries_snoc(es.drop_first(), j - 1);
        assert(es.take(j + 1).drop_first() =~= es.drop_first().take(j));
        assert(es.take(j).drop_first() =~= es.drop_first().take(j - 1));
        assert(es.take(j + 1)[0] == es[0]);
        assert(es.take(j)[0] == es[0]);
        assert(es.drop_first()[j - 1] == es[j]);
        assert(cat_entries(es.take(j + 1)) =~= cat_entries(es.take(j)) + es[j].0 + es[j].1);
    }
}

/// Parsing inverts concatenation for scalar blocks.
proof fn lemma_parse_scalar_blocks(b: Seq<u8>, off: int, xs: Seq<Seq<u8>>)
    requires
        0 <= off,
        off + 32 * xs.len() <= b.len(),
        forall|j: int|
            0 <= j < xs.len() ==> (#[trigger] xs[j]).len() == 32 && le_val(xs[j]) < group_order(),
        b.subrange(off, off + 32 * xs.len()) == cat_blocks(xs),
    ensures
        parse_scalar_blocks(b, off, xs.len() as int) == Some(xs),
    decreases xs.len(),
{
    if xs.len() == 0 {
        assert(parse_scalar_blocks(b, off, 0) == Some(Seq::<Seq<u8>>::empty()));
        assert(xs =~= Seq::<Seq<u8>>::empty());
    } else {
        lemma_cat_blocks_len(xs.drop_first());
        assert(b.subrange(off, off + 32) =~= xs[0]);
        assert forall|k: int| 0 <= k < 32 * xs.drop_first().len() implies b.subrange(
            off + 32,
            off + 32 + 32 * xs.drop_first().len(),
        )[k] == cat_blocks(xs.drop_first())[k] by {
            assert(b.subrange(off, off + 32 * xs.len())[32 + k] == cat_blocks(xs)[32 + k]);
        }
        assert(b.subrange(off + 32, off + 32 + 32 * xs.drop_first().len()) =~= cat_blocks(
            xs.drop_first(),
        ));
        lemma_parse_scalar_blocks(b, off + 32, xs.drop_first());
        assert(seq![b.subrange(off, off + 32)] + xs.drop_first() =~= xs);
    }
}

/// Parsing inverts concatenation for point blocks.
proof fn lemma_parse_point_blocks(b: Seq<u8>, off: int, xs: Seq<Seq<u8>>)
    requires
        0 <= off,
        off + 32 * xs.len() <= b.len(),
        forall|j: int|
            0 <= j < xs.len() ==> (#[trigger] xs[j]).len() == 32 && is_point_encoding(xs[j]),
        b.subrange(off, off + 32 * xs.len()) == cat_blocks(xs),
    ensures
        parse_point_blocks(b, off, xs.len() as int) == Some(xs),
    decreases xs.len(),
{
    if xs.len() == 0 {
        assert(parse_point_blocks(b, off, 0) == Some(Seq::<Seq<u8>>::empty()));
        assert(xs =~= Seq::<Seq<u8>>::empty());
    } else {
        lemma_cat_blocks_len(xs.drop_first());
        assert(b.subrange(off, off + 32) =~= xs[0]);
        assert forall|k: int| 0 <= k < 32 * xs.drop_first().len() implies b.subrange(
            off + 32,
            off + 32 + 32 * xs.drop_first().len(),
        )[k] == cat_blocks(xs.drop_first())[k] by {
            assert(b.subrange(off, off + 32 * xs.len())[32 + k] == cat_blocks(xs)[32 + k]);
        }
        assert(b.subrange(off + 32, off + 32 + 32 * xs.drop_first().len()) =~= cat_blocks(
            xs.drop_first(),
        ));
        lemma_parse_point_blocks(b, off + 32, xs.drop_first());
        assert(seq![b.subrange(off, off + 32)] + xs.drop_first() =~= xs);
    }
}

/// Parsing inverts concatenation for map records.
proof fn lemma_parse_entry_blocks(b: Seq<u8>, off: int, es: Seq<(Seq<u8>, Seq<u8>)>)
    requires
        0 <= off,
        off + 64 * es.len() <= b.len(),
        forall|j: int|
            0 <= j < es.len() ==> (#[trigger] es[j]).0.len() == 32 && es[j].1.len() == 32
                && le_val(es[j].1) < group_order(),
        b.subrange(off, off + 64 * es.len()) == cat_entries(es),
    ensures
        parse_entry_blocks(b, off, es.len() as int) == Some(es),
    decreases es.len(),
{
    if es.len() == 0 {
        assert(parse_entry_blocks(b, off, 0) == Some(Seq::<(Seq<u8>, Seq<u8>)>::empty()));
        assert(es =~= Seq::<(Seq<u8>, Seq<u8>)>::empty());
    } else {
        lemma_cat_entries_len(es.drop_first());
        assert(b.subrange(off, off + 32) =~= es[0].0);
        assert forall|k: int| 0 <= k < 32 implies b.subrange(off + 32, off + 64)[k]
            == es[0].1[k] by {
            assert(b.subrange(off, off + 64 * es.len())[32 + k] == cat_entries(es)[32 + k]);
        }
        assert(b.subrange(off + 32, off + 64) =~= es[0].1);
        assert forall|k: int| 0 <= k < 64 * es.drop_first().len() implies b.subrange(
            off + 64,
            off + 64 + 64 * es.drop_first().len(),
        )[k] == cat_entries(es.drop_first())[k] by {
            assert(b.subrange(off, off + 64 * es.len())[64 + k] == cat_entries(es)[64 + k]);
        }
        assert(b.subrange(off + 64, off + 64 + 64 * es.drop_first().len()) =~= cat_entries(
            es.drop_first(),
        ));
        lemma_parse_entry_blocks(b, off + 64, es.drop_first());
        assert(seq![(b.subrange(off, off + 32), b.subrange(off + 32, off + 64))]
            + es.drop_first() =~= es);
    }
}

/// The round trip: a valid model parses back from its own serialization,
/// field for field. Keeping a generated table and loading it later hands the
/// solver exactly the table that was built.
#[verifier::rlimit(100)]
pub proof fn lemma_serialize_round_trip(m: KangarooModel)
    requires
        m.wf(),
    ensures
        spec_deserialize(spec_serialize(m)) == Some(m),
{
    let b = spec_serialize(m);
    let r = m.parameters.R as int;
    let e = m.entries.len() as int;
    lemma_cat_blocks_len(m.slog);
    lemma_cat_blocks_len(m.s);
    lemma_cat_entries_len(m.entries);
    assert(b.len() == 33 + 64 * r + 8 + 64 * e);
    lemma_le_val_u64_le(m.parameters.i);
    lemma_le_val_u64_le(m.parameters.W);
    lemma_le_val_u64_le(m.parameters.N);
    lemma_le_val_u64_le(m.parameters.R);
    lemma_le_val_u64_le(m.entries.len() as u64);
    assert(b.subrange(0, 8) =~= u64_le(m.parameters.i));
    assert(b.subrange(8, 16) =~= u64_le(m.parameters.W));
    assert(b.subrange(16, 24) =~= u64_le(m.parameters.N));
    assert(b.subrange(24, 32) =~= u64_le(m.parameters.R));
    assert(b[32] == m.parameters.secret_size);
    let p = Parameters {
        i: le_val(b.subrange(0, 8)) as u64,
        W: le_val(b.subrange(8, 16)) as u64,
        N: le_val(b.subrange(16, 24)) as u64,
        R: le_val(b.subrange(24, 32)) as u64,
        secret_size: b[32],
    };
    assert(p == m.parameters);
    assert(b.subrange(33, 33 + 32 * r) =~= cat_blocks(m.slog));
    lemma_parse_scalar_blocks(b, 33, m.slog);
    assert(b.subrange(33 + 32 * r, 33 + 64 * r) =~= cat_blocks(m.s));
    lemma_parse_point_blocks(b, 33 + 32 * r, m.s);
    let moff = 33 + 64 * r;
    assert(b.subrange(moff, moff + 8) =~= u64_le(m.entries.len() as u64));
    assert(le_val(b.subrange(moff, moff + 8)) == e);
    assert(b.subrange(moff + 8, moff + 8 + 64 * e) =~= cat_entries(m.entries));
    lemma_parse_entry_blocks(b, moff + 8, m.entries);
    assert(spec_deserialize(b) == Some(m));
}

/// The round trip at the aggregate: any valid [`Kangaroo`] — in particular
/// any generated one — has a valid model, and parsing its serialization
/// gives exactly that model back, field for field.
pub proof fn lemma_kangaroo_round_trip(k: Kangaroo)
    requires
        k.wf(),
    ensures
        k.model().wf(),
        spec_deserialize(spec_serialize(k.model())) == Some(k.model()),
{
    vstd::std_specs::vec::axiom_spec_len(&k.table.table);
    let m = k.model();
    assert forall|j: int| 0 <= j < m.slog.len() implies (#[trigger] m.slog[j]).len() == 32
        && le_val(m.slog[j]) < group_order() by {
        assert(k.table.slog@[j].wf());
    }
    assert forall|j: int| 0 <= j < m.s.len() implies (#[trigger] m.s[j]).len() == 32
        && is_point_encoding(m.s[j]) by {
        assert(k.table.s@[j].wf());
    }
    assert forall|j: int| 0 <= j < m.entries.len() implies (#[trigger] m.entries[j]).0.len() == 32
        && m.entries[j].1.len() == 32 && le_val(m.entries[j].1) < group_order() by {
        assert(k.table.table@[j].wf());
    }
    lemma_serialize_round_trip(m);
}

impl Kangaroo {
    /// Serializes the aggregate into the persisted format.
    pub fn to_bytes(&self) -> (r: Vec<u8>)
        requires
            self.wf(),
        ensures
            r@ == spec_serialize(self.model()),
    {
        let ghost m = self.model();
        let mut out: Vec<u8> = Vec::new();
        push_u64_le(&mut out, self.parameters.i);
        push_u64_le(&mut out, self.parameters.W);
        push_u64_le(&mut out, self.parameters.N);
        push_u64_le(&mut out, self.parameters.R);
        out.push(self.parameters.secret_size);
        let ghost header = out@;
        let rn = self.table.slog.len();
        let mut j: usize = 0;
        while j < rn
            invariant
                self.wf(),
                m == self.model(),
                rn == self.table.slog@.len(),
                0 <= j <= rn,
                out@ == header + cat_blocks(m.slog.take(j as int)),
            decreases rn - j,
        {
            extend_bytes(&mut out, self.table.slog[j].bytes());
            proof {
                lemma_cat_blocks_snoc(m.slog, j as int);
                assert(m.slog[j as int] == self.table.slog@[j as int]@);
                assert(out@ =~= header + cat_blocks(m.slog.take(j + 1)));
            }
            j += 1;
        }
        proof {
            assert(m.slog.take(rn as int) =~= m.slog);
        }
        let ghost header2 = out@;
        let mut j: usize = 0;
        while j < rn
            invariant
                self.wf(),
                m == self.model(),
                rn == self.table.slog@.len(),
                rn == self.table.s@.len(),
                0 <= j <= rn,
                out@ == header2 + cat_blocks(m.s.take(j as int)),
            decreases rn - j,
        {
            extend_bytes(&mut out, self.table.s[j].encoding());
            proof {
                lemma_cat_blocks_snoc(m.s, j as int);
                assert(m.s[j as int] == self.table.s@[j as int]@);
                assert(out@ =~= header2 + cat_blocks(m.s.take(j + 1)));
            }
            j += 1;
        }
        proof {
            assert(m.s.take(rn as int) =~= m.s);
        }
        let en = self.table.table.len();
        push_u64_le(&mut out, en as u64);
        let ghost header3 = out@;
        let mut j: usize = 0;
        while j < en
            invariant
                self.wf(),
                m == self.model(),
                en == self.table.table@.len(),
                0 <= j <= en,
                out@ == header3 + cat_entries(m.entries.take(j as int)),
            decreases en - j,
        {
            extend_bytes(&mut out, &self.table.table[j].point);
            extend_bytes(&mut out, self.table.table[j].log.bytes());
            proof {
                lemma_cat_entries_snoc(m.entries, j as int);
                assert(m.entries[j as int] == (
                    self.table.table@[j as int].point@,
                    self.table.table@[j as int].log@,
                ));
                assert(out@ =~= header3 + cat_entries(m.entries.take(j + 1)));
            }
            j += 1;
        }
        proof {
            assert(m.entries.take(en as int) =~= m.entries);
            assert(out@ =~= spec_serialize(m));
        }
        out
    }

}

/// Reads `count` scalar blocks at `start`, exactly as
/// [`parse_scalar_blocks`] accepts them.
fn read_scalar_blocks(bytes: &Vec<u8>, start: usize, count: u64) -> (r: Option<
    (Vec<GroupScalar>, usize),
>)
    requires
        start <= bytes@.len(),
    ensures
        match r {
            Some(v) => ({
                &&& parse_scalar_blocks(bytes@, start as int, count as int) == Some(
                    v.0@.map_values(|x: GroupScalar| x@),
                )
                &&& v.0@.len() == count
                &&& forall|k: int| 0 <= k < v.0@.len() ==> (#[trigger] v.0@[k]).wf()
                &&& v.1 == start + 32 * count
                &&& v.1 <= bytes@.len()
            }),
            None => parse_scalar_blocks(bytes@, start as int, count as int) is None,
        },
{
    let n = bytes.len();
    let mut out: Vec<GroupScalar> = Vec::new();
    let mut off: usize = start;
    let mut j: u64 = 0;
    proof {
        assert(out@.map_values(|x: GroupScalar| x@) =~= Seq::<Seq<u8>>::empty());
        match parse_scalar_blocks(bytes@, start as int, count as int) {
            Some(v) => {
                assert(Seq::<Seq<u8>>::empty() + v =~= v);
            },
            None => {},
        }
    }
    while j < count
        invariant
            n == bytes@.len(),
            0 <= j <= count,
            start <= off <= n,
            off == start + 32 * j,
            out@.len() == j,
            forall|k: int| 0 <= k < out@.len() ==> (#[trigger] out@[k]).wf(),
            (match parse_scalar_blocks(bytes@, off as int, count - j) {
                Some(v) => parse_scalar_blocks(bytes@, start as int, count as int) == Some(
                    out@.map_values(|x: GroupScalar| x@) + v,
                ),
                None => parse_scalar_blocks(bytes@, start as int, count as int) is None,
            }),
        decreases count - j,
    {
        if n - off < 32 {
            return None;
        }
        let block = sub_bytes(bytes, off, 32);
        let sc = match scalar_from_canonical_bytes(&block) {
            Some(sc) => sc,
            None => { return None },
        };
        let ghost old_map = out@.map_values(|x: GroupScalar| x@);
        out.push(sc);
        proof {
            assert(out@.map_values(|x: GroupScalar| x@) =~= old_map.push(block@));
            match parse_scalar_blocks(bytes@, off + 32, count - j - 1) {
                Some(rest) => {
                    assert(old_map + (seq![bytes@.subrange(off as int, off + 32)] + rest)
                        =~= old_map.push(block@) + rest);
                },
                None => {},
            }
        }
        off += 32;
        j += 1;
    }
    proof {
        assert(parse_scalar_blocks(bytes@, off as int, 0) == Some(Seq::<Seq<u8>>::empty()));
        assert(out@.map_values(|x: GroupScalar| x@) + Seq::<Seq<u8>>::empty() =~= out@.map_values(
            |x: GroupScalar| x@,
        ));
    }
    Some((out, off))
}

/// Reads `count` point blocks at `start`, exactly as
/// [`parse_point_blocks`] accepts them.
fn read_point_blocks(bytes: &Vec<u8>, start: usize, count: u64) -> (r: Option<
    (Vec<GroupPoint>, usize),
>)
    requires
        start <= bytes@.len(),
    ensures
        match r {
            Some(v) => ({
                &&& parse_point_blocks(bytes@, start as int, count as int) == Some(
                    v.0@.map_values(|p: GroupPoint| p@),
                )
                &&& v.0@.len() == count
                &&& forall|k: int| 0 <= k < v.0@.len() ==> (#[trigger] v.0@[k]).wf()
                &&& v.1 == start + 32 * count
                &&& v.1 <= bytes@.len()
            }),
            None => parse_point_blocks(bytes@, start as int, count as int) is None,
        },
{
    let n = bytes.len();
    let mut out: Vec<GroupPoint> = Vec::new();
    let mut off: usize = start;
    let mut j: u64 = 0;
    proof {
        assert(out@.map_values(|p: GroupPoint| p@) =~= Seq::<Seq<u8>>::empty());
        match parse_point_blocks(bytes@, start as int, count as int) {
            Some(v) => {
                assert(Seq::<Seq<u8>>::empty() + v =~= v);
            },
            None => {},
        }
    }
    while j < count
        invariant
            n == bytes@.len(),
            0 <= j <= count,
            start <= off <= n,
            off == start + 32 * j,
            out@.len() == j,
            forall|k: int| 0 <= k < out@.len() ==> (#[trigger] out@[k]).wf(),
            (match parse_point_blocks(bytes@, off as int, count - j) {
                Some(v) => parse_point_blocks(bytes@, start as int, count as int) == Some(
                    out@.map_values(|p: GroupPoint| p@) + v,
                ),
                None => parse_point_blocks(bytes@, start as int, count as int) is None,
            }),
        decreases count - j,
    {
        if n - off < 32 {
            return None;
        }
        let block = sub_bytes(bytes, off, 32);
        let pt = match point_from_bytes(&block) {
            Some(pt) => pt,
            None => { return None },
        };
        let ghost old_map = out@.map_values(|p: GroupPoint| p@);
        out.push(pt);
        proof {
            assert(out@.map_values(|p: GroupPoint| p@) =~= old_map.push(block@));
            match parse_point_blocks(bytes@, off + 32, count - j - 1) {
                Some(rest) => {
                    assert(old_map + (seq![bytes@.subrange(off as int, off + 32)] + rest)
                        =~= old_map.push(block@) + rest);
                },
                None => {},
            }
        }
        off += 32;
        j += 1;
    }
    proof {
        assert(parse_point_blocks(bytes@, off as int, 0) == Some(Seq::<Seq<u8>>::empty()));
        assert(out@.map_values(|p: GroupPoint| p@) + Seq::<Seq<u8>>::empty() =~= out@.map_values(
            |p: GroupPoint| p@,
        ));
    }
    Some((out, off))
}

/// Reads `count` map records at `start`, exactly as
/// [`parse_entry_blocks`] accepts them.
fn read_entry_blocks(bytes: &Vec<u8>, start: usize, count: u64) -> (r: Option<
    (Vec<TableEntry>, usize),
>)
    requires
        start <= bytes@.len(),
    ensures
        match r {
            Some(v) => ({
                &&& parse_entry_blocks(bytes@, start as int, count as int) == Some(
                    v.0@.map_values(|e: TableEntry| (e.point@, e.log@)),
                )
                &&& v.0@.len() == count
                &&& forall|k: int| 0 <= k < v.0@.len() ==> (#[trigger] v.0@[k]).wf()
                &&& v.1 == start + 64 * count
                &&& v.1 <= bytes@.len()
            }),
            None => parse_entry_blocks(bytes@, start as int, count as int) is None,
        },
{
    let n = bytes.len();
    let mut out: Vec<TableEntry> = Vec::new();
    let mut off: usize = start;
    let mut j: u64 = 0;
    proof {
        assert(out@.map_values(|e: TableEntry| (e.point@, e.log@)) =~= Seq::<
            (Seq<u8>, Seq<u8>),
        >::empty());
        match parse_entry_blocks(bytes@, start as int, count as int) {
            Some(v) => {
                assert(Seq::<(Seq<u8>, Seq<u8>)>::empty() + v =~= v);
            },
            None => {},
        }
    }
    while j < count
        invariant
            n == bytes@.len(),
            0 <= j <= count,
            start <= off <= n,
            off == start + 64 * j,
            out@.len() == j,
            forall|k: int| 0 <= k < out@.len() ==> (#[trigger] out@[k]).wf(),
            (match parse_entry_blocks(bytes@, off as int, count - j) {
                Some(v) => parse_entry_blocks(bytes@, start as int, count as int) == Some(
                    out@.map_values(|e: TableEntry| (e.point@, e.log@)) + v,
                ),
                None => parse_entry_blocks(bytes@, start as int, count as int) is None,
            }),
        decreases count - j,
    {
        if n - off < 64 {
            return None;
        }
        let key = sub_bytes(bytes, off, 32);
        let logb = sub_bytes(bytes, off + 32, 32);
        let sc = match scalar_from_canonical_bytes(&logb) {
            Some(sc) => sc,
            None => { return None },
        };
        let ghost old_map = out@.map_values(|e: TableEntry| (e.point@, e.log@));
        out.push(TableEntry { point: key, log: sc });
        proof {
            assert(out@.map_values(|e: TableEntry| (e.point@, e.log@)) =~= old_map.push(
                (bytes@.subrange(off as int, off + 32), bytes@.subrange(off + 32, off + 64)),
            ));
            match parse_entry_blocks(bytes@, off + 64, count - j - 1) {
                Some(rest) => {
                    assert(old_map + (seq![
                        (bytes@.subrange(off as int, off + 32), bytes@.subrange(
                            off + 32,
                            off + 64,
                        )),
                    ] + rest) =~= old_map.push(
                        (bytes@.subrange(off as int, off + 32), bytes@.subrange(
                            off + 32,
                            off + 64,
                        )),
                    ) + rest);
                },
                None => {},
            }
        }
        off += 64;
        j += 1;
    }
    proof {
        assert(parse_entry_blocks(bytes@, off as int, 0) == Some(Seq::<
            (Seq<u8>, Seq<u8>),
        >::empty()));
        assert(out@.map_values(|e: TableEntry| (e.point@, e.log@)) + Seq::<
            (Seq<u8>, Seq<u8>),
        >::empty() =~= out@.map_values(|e: TableEntry| (e.point@, e.log@)));
    }
    Some((out, off))
}

impl Kangaroo {
    /// Loads an aggregate from the persisted format, rejecting malformed
    /// bytes, non-canonical scalar or point encodings, and invalid
    /// parameters, all before any query can touch the result.
    pub fn from_bytes(bytes: &Vec<u8>) -> (r: Result<Kangaroo, Error>)
        ensures
            r matches Ok(k) ==> k.wf() && spec_deserialize(bytes@) == Some(k.model()),
            r is Err <==> spec_deserialize(bytes@) is None,
            r matches Err(e) ==> e == Error::DeserializationFailed,
    {
        let n = bytes.len();
        if n < 33 {
            return Err(Error::DeserializationFailed);
        }
        let parameters = Parameters {
            i: read_u64_le(bytes, 0),
            W: read_u64_le(bytes, 8),
            N: read_u64_le(bytes, 16),
            R: read_u64_le(bytes, 24),
            secret_size: bytes[32],
        };
        if !parameters.is_valid() {
            return Err(Error::DeserializationFailed);
        }
        let slog_read = match read_scalar_blocks(bytes, 33, parameters.R) {
            Some(v) => v,
            None => { return Err(Error::DeserializationFailed) },
        };
        let (slog, off1) = slog_read;
        let s_read = match read_point_blocks(bytes, off1, parameters.R) {
            Some(v) => v,
            None => { return Err(Error::DeserializationFailed) },
        };
        let (s, off2) = s_read;
        if n - off2 < 8 {
            return Err(Error::DeserializationFailed);
        }
        let record_count = read_u64_le(bytes, off2);
        let entries_read = match read_entry_blocks(bytes, off2 + 8, record_count) {
            Some(v) => v,
            None => { return Err(Error::DeserializationFailed) },
        };
        let (entries, off3) = entries_read;
        if off3 != n {
            return Err(Error::DeserializationFailed);
        }
        let k = Kangaroo { parameters, table: Table { s, slog, table: entries } };
        proof {
            assert(k.wf());
            assert(spec_deserialize(bytes@) == Some(k.model()));
        }
        Ok(k)
    }
}

} // verus!
