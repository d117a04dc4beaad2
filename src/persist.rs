//! The persisted form of an index: a header of seven little-endian words
//! and one fixed-length record per slot.
use vstd::prelude::*;

use crate::codec::{
    bias, bias_word, coord_pos, count_pos, decodable, edge_pos, extends, header_ok, is_encoding,
    lemma_extends_trans, lemma_prefix_stable, lemma_slot_pos_step, lemma_word_stable, prefix_ok,
    push_word, read_word, record_ok, slot_ok, slot_pos, unbias_word, word,
};
use crate::error::{Error, ErrorKind};
use crate::index::{IndexView, NgtIndex};
use crate::properties::{
    NgtDistance, NgtObject, NgtProperties, lemma_distance_code_injective,
    lemma_object_code_injective,
};

verus! {

impl NgtIndex {
    /// The persisted form of the index.
    pub fn to_bytes(&self) -> (r: Vec<u8>)
        requires
            self.wf(),
        ensures
            is_encoding(r@, self@),
    {
        let ghost v = self@;
        let ghost dim = v.prop.dimension as int;
        let ghost ces = v.prop.creation_edge_size as int;
        let prop = self.properties();
        let n = self.slot_count();
        let live = self.live_flags();
        let mut out: Vec<u8> = Vec::new();
        push_word(&mut out, prop.dimension as u32);
        let ghost o1 = out@;
        push_word(&mut out, prop.creation_edge_size as u32);
        let ghost o2 = out@;
        push_word(&mut out, prop.search_edge_size as u32);
        let ghost o3 = out@;
        push_word(&mut out, prop.object_type.to_primitive() as u32);
        let ghost o4 = out@;
        push_word(&mut out, prop.distance_type.to_primitive() as u32);
        let ghost o5 = out@;
        push_word(&mut out, n as u32);
        let ghost o6 = out@;
        push_word(&mut out, self.built_count() as u32);
        proof {
            lemma_extends_trans(o5, o6, out@);
            lemma_extends_trans(o4, o5, out@);
            lemma_extends_trans(o3, o4, out@);
            lemma_extends_trans(o2, o3, out@);
            lemma_extends_trans(o1, o2, out@);
            lemma_word_stable(o1, out@, 0);
            lemma_word_stable(o2, out@, 4);
            lemma_word_stable(o3, out@, 8);
            lemma_word_stable(o4, out@, 12);
            lemma_word_stable(o5, out@, 16);
            lemma_word_stable(o6, out@, 20);
            assert(header_ok(out@, v));
            assert(slot_pos(dim, ces, 0) == 28);
        }
        let mut s: usize = 0;
        while s < n
            invariant
                self.wf(),
                v == self@,
                prop == v.prop,
                live@ == v.live,
                dim == v.prop.dimension,
                ces == v.prop.creation_edge_size,
                n == v.objects.len(),
                s <= n,
                out@.len() == slot_pos(dim, ces, s as int),
                prefix_ok(out@, v, s as int),
            decreases n - s,
        {
            let ghost start = out@;
            proof {
                assert(s * (4 * (2 + dim + ces)) >= 0) by (nonlinear_arith)
                    requires
                        s >= 0,
                        dim >= 0,
                        ces >= 0,
                ;
            }
            assert(slot_pos(dim, ces, s as int) >= 0);
            push_word(&mut out, if live[s] { 1 } else { 0 });
            let ghost after_live = out@;
            let obj = self.object_at(s);
            proof {
                assert(v.accepts(v.objects[s as int]));
            }
            let mut j: usize = 0;
            while j < obj.len()
                invariant
                    s < n,
                    n == v.objects.len(),
                    slot_pos(dim, ces, s as int) >= 0,
                    obj@ == v.objects[s as int],
                    obj@.len() == dim,
                    j <= obj@.len(),
                    out@.len() == coord_pos(dim, ces, s as int, j as int),
                    extends(after_live, out@),
                    forall|i: int|
                        0 <= i < j ==> word(out@, #[trigger] coord_pos(dim, ces, s as int, i))
                            == crate::codec::bias(v.objects[s as int][i]),
                decreases obj.len() - j,
            {
                let ghost before = out@;
                push_word(&mut out, bias_word(obj[j]));
                proof {
                    lemma_extends_trans(after_live, before, out@);
                    assert forall|i: int| 0 <= i < j + 1 implies word(
                        out@,
                        #[trigger] coord_pos(dim, ces, s as int, i),
                    ) == crate::codec::bias(v.objects[s as int][i]) by {
                        if i < j {
                            lemma_word_stable(before, out@, coord_pos(dim, ces, s as int, i));
                        }
                    }
                }
                j = j + 1;
            }
            let ghost after_coords = out@;
            let edges = self.edges_at(s);
            push_word(&mut out, edges.len() as u32);
            let ghost after_count = out@;
            let cesu = prop.creation_edge_size as usize;
            let mut e: usize = 0;
            while e < cesu
                invariant
                    s < n,
                    n == v.objects.len(),
                    dim >= 0,
                    slot_pos(dim, ces, s as int) >= 0,
                    edges@ == v.edges[s as int],
                    edges@.len() <= cesu,
                    cesu == ces,
                    e <= cesu,
                    forall|i: int| 0 <= i < edges@.len() ==> #[trigger] edges@[i] < v.built,
                    v.built < u32::MAX,
                    out@.len() == edge_pos(dim, ces, s as int, e as int),
                    extends(after_count, out@),
                    forall|i: int|
                        0 <= i < e && i < edges@.len() ==> word(
                            out@,
                            #[trigger] edge_pos(dim, ces, s as int, i),
                        ) == edges@[i],
                decreases cesu - e,
            {
                let ghost before = out@;
                if e < edges.len() {
                    push_word(&mut out, edges[e] as u32);
                } else {
                    push_word(&mut out, 0);
                }
                proof {
                    lemma_extends_trans(after_count, before, out@);
                    assert forall|i: int| 0 <= i < e + 1 && i < edges@.len() implies word(
                        out@,
                        #[trigger] edge_pos(dim, ces, s as int, i),
                    ) == edges@[i] by {
                        if i < e {
                            lemma_word_stable(before, out@, edge_pos(dim, ces, s as int, i));
                        }
                    }
                }
                e = e + 1;
            }
            proof {
                let fin = out@;
                lemma_slot_pos_step(dim, ces, s as int);
                lemma_extends_trans(after_coords, after_count, fin);
                lemma_extends_trans(after_live, after_coords, fin);
                lemma_extends_trans(start, after_live, fin);
                lemma_word_stable(after_live, fin, slot_pos(dim, ces, s as int));
                lemma_word_stable(after_count, fin, count_pos(dim, ces, s as int));
                assert forall|i: int| 0 <= i < dim implies word(
                    fin,
                    #[trigger] coord_pos(dim, ces, s as int, i),
                ) == crate::codec::bias(v.objects[s as int][i]) by {
                    lemma_word_stable(after_coords, fin, coord_pos(dim, ces, s as int, i));
                }
                assert(record_ok(fin, v, s as int));
                lemma_prefix_stable(start, fin, v, s as int);
                assert forall|t: int| 0 <= t < s + 1 implies #[trigger] record_ok(fin, v, t) by {
                    if t < s {
                        assert(prefix_ok(fin, v, s as int));
                    }
                }
            }
            s = s + 1;
        }
        out
    }
}

/// The facts about a valid index that its persisted form `b` gives away.
proof fn lemma_encoding_facts(b: Seq<u8>, v: IndexView)
    requires
        v.wf(),
        is_encoding(b, v),
    ensures
        header_ok(b, v),
        b.len() == slot_pos(
            v.prop.dimension as int,
            v.prop.creation_edge_size as int,
            v.objects.len() as int,
        ),
        forall|s: int| 0 <= s < v.objects.len() ==> #[trigger] record_ok(b, v, s),
{
}

impl NgtIndex {
    /// Reads an index back from its persisted form. Fails with
    /// `CorruptFormat` exactly when `b` is the persisted form of no valid
    /// index.
    pub fn from_bytes(b: &Vec<u8>) -> (r: Result<NgtIndex, Error>)
        ensures
            r is Ok <==> decodable(b@),
            r matches Ok(x) ==> x.wf() && is_encoding(b@, x@),
            r matches Err(e) ==> e.kind == ErrorKind::CorruptFormat,
    {
        let corrupt = Error::new(ErrorKind::CorruptFormat);
        if b.len() < 28 {
            proof {
                assert forall|v: IndexView| !(v.wf() && #[trigger] is_encoding(b@, v)) by {
                    if v.wf() && is_encoding(b@, v) {
                        let n = v.objects.len() as int;
                        let rl = 4 * (2 + v.prop.dimension + v.prop.creation_edge_size);
                        assert(n * rl >= 0) by (nonlinear_arith)
                            requires
                                n >= 0,
                                rl >= 0,
                        ;
                    }
                }
            }
            return Err(corrupt);
        }
        let w_dim = read_word(b, 0);
        let w_ces = read_word(b, 4);
        let w_ses = read_word(b, 8);
        let w_obj = read_word(b, 12);
        let w_dist = read_word(b, 16);
        let w_n = read_word(b, 20);
        let w_built = read_word(b, 24);
        if w_dim > i32::MAX as u32 || w_ces > i16::MAX as u32 || w_ses
            > i16::MAX as u32 || w_obj > 255 || w_dist > 255 || w_n >= u32::MAX || w_built > w_n {
            proof {
                assert forall|v: IndexView| !(v.wf() && #[trigger] is_encoding(b@, v)) by {
                    if v.wf() && is_encoding(b@, v) {
                        lemma_encoding_facts(b@, v);
                    }
                }
            }
            return Err(corrupt);
        }
        let object_type = match NgtObject::try_from_primitive(w_obj as i32) {
            Ok(o) => o,
            Err(_) => {
                proof {
                    assert forall|v: IndexView| !(v.wf() && #[trigger] is_encoding(b@, v)) by {
                        if v.wf() && is_encoding(b@, v) {
                            lemma_encoding_facts(b@, v);
                            assert(v.prop.object_type.code() == w_obj);
                        }
                    }
                }
                return Err(corrupt);
            },
        };
        let distance_type = match NgtDistance::try_from_primitive(w_dist as i32) {
            Ok(d) => d,
            Err(_) => {
                proof {
                    assert forall|v: IndexView| !(v.wf() && #[trigger] is_encoding(b@, v)) by {
                        if v.wf() && is_encoding(b@, v) {
                            lemma_encoding_facts(b@, v);
                            assert(v.prop.distance_type.code() == w_dist);
                        }
                    }
                }
                return Err(corrupt);
            },
        };
        if !distance_type.is_supported() {
            proof {
                assert forall|v: IndexView| !(v.wf() && #[trigger] is_encoding(b@, v)) by {
                    if v.wf() && is_encoding(b@, v) {
                        lemma_encoding_facts(b@, v);
                        lemma_distance_code_injective(v.prop.distance_type, distance_type);
                    }
                }
            }
            return Err(corrupt);
        }
        let prop = NgtProperties {
            dimension: w_dim as i32,
            creation_edge_size: w_ces as i16,
            search_edge_size: w_ses as i16,
            object_type,
            distance_type,
        };
        let ghost dim = w_dim as int;
        let ghost ces = w_ces as int;
        let n = w_n as usize;
        let built = w_built as usize;
        let rec: u128 = 4 * (2 + w_dim as u128 + w_ces as u128);
        assert((w_n as u128) * rec <= 0x1_0000_0000 * 0x4_0000_0000) by (nonlinear_arith)
            requires
                w_n < 0x1_0000_0000,
                rec <= 0x4_0000_0000,
        ;
        let total: u128 = 28 + (w_n as u128) * rec;
        /// The header of every index whose persisted form is `b` agrees
        /// with what was read.
        proof {
            assert forall|v: IndexView| v.wf() && #[trigger] is_encoding(b@, v) implies {
                &&& v.prop == prop
                &&& v.objects.len() == n
                &&& v.built == built
            } by {
                lemma_encoding_facts(b@, v);
                lemma_object_code_injective(v.prop.object_type, object_type);
                lemma_distance_code_injective(v.prop.distance_type, distance_type);
            }
        }
        if b.len() as u128 != total {
            proof {
                assert forall|v: IndexView| !(v.wf() && #[trigger] is_encoding(b@, v)) by {
                    if v.wf() && is_encoding(b@, v) {
                        lemma_encoding_facts(b@, v);
                    }
                }
            }
            return Err(corrupt);
        }
        let mut objects: Vec<Vec<i32>> = Vec::new();
        let mut live: Vec<bool> = Vec::new();
        let mut edges: Vec<Vec<usize>> = Vec::new();
        let ghost mut gobj: Seq<Seq<i32>> = Seq::empty();
        let ghost mut gedges: Seq<Seq<usize>> = Seq::empty();
        let blen = b.len();
        let mut pos: usize = 28;
        let mut s: usize = 0;
        while s < n
            invariant
                corrupt.kind == ErrorKind::CorruptFormat,
                blen == b@.len(),
                prop.wf(),
                dim == prop.dimension,
                ces == prop.creation_edge_size,
                w_dim == dim,
                w_ces == ces,
                n < u32::MAX,
                built <= n,
                b@.len() == slot_pos(dim, ces, n as int),
                s <= n,
                pos == slot_pos(dim, ces, s as int),
                objects@.len() == s,
                live@.len() == s,
                edges@.len() == s,
                gobj.len() == s,
                gedges.len() == s,
                forall|t: int| 0 <= t < s ==> #[trigger] objects@[t]@ == gobj[t],
                forall|t: int| 0 <= t < s ==> #[trigger] edges@[t]@ == gedges[t],
                forall|t: int| 0 <= t < s ==> #[trigger] gobj[t].len() == dim,
                forall|t: int, j: int|
                    0 <= t < s && 0 <= j < dim ==> prop.object_type.admits(#[trigger] gobj[t][j]),
                forall|t: int| 0 <= t < s ==> #[trigger] gedges[t].len() <= ces,
                forall|t: int, e: int|
                    0 <= t < s && 0 <= e < gedges[t].len() ==> #[trigger] gedges[t][e] < built,
                forall|t: int|
                    0 <= t < s ==> #[trigger] slot_ok(b@, dim, ces, t, live@[t], gobj[t], gedges[t]),
                forall|v: IndexView|
                    v.wf() && #[trigger] is_encoding(b@, v) ==> v.prop == prop && v.objects.len()
                        == n && v.built == built,
            decreases n - s,
        {
            proof {
                lemma_slot_pos_step(dim, ces, s as int);
                crate::codec::lemma_slot_pos_mono(dim, ces, s as int, n as int);
                assert(s * (4 * (2 + dim + ces)) >= 0) by (nonlinear_arith)
                    requires
                        s >= 0,
                        dim >= 0,
                        ces >= 0,
                ;
            }
            let w_live = read_word(b, pos);
            if w_live > 1 {
                proof {
                    assert forall|v: IndexView| !(v.wf() && #[trigger] is_encoding(b@, v)) by {
                        if v.wf() && is_encoding(b@, v) {
                            lemma_encoding_facts(b@, v);
                            assert(record_ok(b@, v, s as int));
                        }
                    }
                }
                return Err(corrupt);
            }
            let mut obj: Vec<i32> = Vec::new();
            let mut p = pos + 4;
            let mut j: usize = 0;
            while j < w_dim as usize
                invariant
                    corrupt.kind == ErrorKind::CorruptFormat,
                    blen == b@.len(),
                    prop.wf(),
                    dim == prop.dimension,
                    ces == prop.creation_edge_size,
                    w_dim == dim,
                    s < n,
                    b@.len() == slot_pos(dim, ces, n as int),
                    slot_pos(dim, ces, s as int) + 4 * (2 + dim + ces) <= b@.len(),
                    slot_pos(dim, ces, s as int) >= 0,
                    j <= dim,
                    p == coord_pos(dim, ces, s as int, j as int),
                    obj@.len() == j,
                    forall|i: int| 0 <= i < j ==> prop.object_type.admits(#[trigger] obj@[i]),
                    forall|i: int|
                        0 <= i < j ==> word(b@, #[trigger] coord_pos(dim, ces, s as int, i)) == bias(
                            obj@[i],
                        ),
                    forall|v: IndexView|
                        v.wf() && #[trigger] is_encoding(b@, v) ==> v.prop == prop && v.objects.len()
                            == n,
                decreases w_dim as usize - j,
            {
                let w = read_word(b, p);
                let x = unbias_word(w);
                if !prop.object_type.accepts(x) {
                    proof {
                        assert forall|v: IndexView| !(v.wf() && #[trigger] is_encoding(b@, v)) by {
                            if v.wf() && is_encoding(b@, v) {
                                lemma_encoding_facts(b@, v);
                                assert(record_ok(b@, v, s as int));
                                assert(word(b@, coord_pos(dim, ces, s as int, j as int)) == bias(
                                    v.objects[s as int][j as int],
                                ));
                                assert(v.accepts(v.objects[s as int]));
                            }
                        }
                    }
                    return Err(corrupt);
                }
                obj.push(x);
                p = p + 4;
                j = j + 1;
            }
            let count = read_word(b, p);
            if count > w_ces {
                proof {
                    assert forall|v: IndexView| !(v.wf() && #[trigger] is_encoding(b@, v)) by {
                        if v.wf() && is_encoding(b@, v) {
                            lemma_encoding_facts(b@, v);
                            assert(record_ok(b@, v, s as int));
                        }
                    }
                }
                return Err(corrupt);
            }
            let mut list: Vec<usize> = Vec::new();
            let mut q = p + 4;
            let mut e: usize = 0;
            while e < count as usize
                invariant
                    corrupt.kind == ErrorKind::CorruptFormat,
                    blen == b@.len(),
                    prop.wf(),
                    dim == prop.dimension,
                    ces == prop.creation_edge_size,
                    s < n,
                    built <= n,
                    count <= ces,
                    count == word(b@, count_pos(dim, ces, s as int)),
                    slot_pos(dim, ces, s as int) + 4 * (2 + dim + ces) <= b@.len(),
                    slot_pos(dim, ces, s as int) >= 0,
                    e <= count,
                    q == edge_pos(dim, ces, s as int, e as int),
                    list@.len() == e,
                    forall|i: int| 0 <= i < e ==> #[trigger] list@[i] < built,
                    forall|i: int|
                        0 <= i < e ==> word(b@, #[trigger] edge_pos(dim, ces, s as int, i)) == list@[i],
                    forall|v: IndexView|
                        v.wf() && #[trigger] is_encoding(b@, v) ==> v.prop == prop && v.objects.len()
                            == n && v.built == built,
                decreases count as usize - e,
            {
                let w = read_word(b, q);
                if w as usize >= built {
                    proof {
                        assert forall|v: IndexView| !(v.wf() && #[trigger] is_encoding(b@, v)) by {
                            if v.wf() && is_encoding(b@, v) {
                                lemma_encoding_facts(b@, v);
                                assert(record_ok(b@, v, s as int));
                                assert(word(b@, count_pos(dim, ces, s as int)) == v.edges[s as int].len());
                                assert(word(b@, edge_pos(dim, ces, s as int, e as int)) == v.edges[s as int][e as int]);
                            }
                        }
                    }
                    return Err(corrupt);
                }
                list.push(w as usize);
                q = q + 4;
                e = e + 1;
            }
            proof {
                let ob = obj@;
                let li = list@;
                let lv = w_live == 1;
                assert(slot_ok(b@, dim, ces, s as int, lv, ob, li));
                gobj = gobj.push(ob);
                gedges = gedges.push(li);
            }
            objects.push(obj);
            live.push(w_live == 1);
            edges.push(list);
            pos = pos + 4 * (2 + w_dim as usize + w_ces as usize);
            s = s + 1;
        }
        let ghost xv = IndexView { prop, objects: gobj, live: live@, edges: gedges, built: built as nat };
        proof {
            assert(objects@.map_values(|o: Vec<i32>| o@) =~= gobj);
            assert(edges@.map_values(|e: Vec<usize>| e@) =~= gedges);
            assert forall|t: int| 0 <= t < xv.objects.len() implies xv.accepts(#[trigger] xv.objects[t]) by {
                assert(gobj[t].len() == dim);
                assert forall|j: int| 0 <= j < gobj[t].len() implies prop.object_type.admits(#[trigger] gobj[t][j]) by {}
            }
            assert forall|t: int| 0 <= t < xv.objects.len() implies #[trigger] record_ok(b@, xv, t) by {
                assert(slot_ok(b@, dim, ces, t, live@[t], gobj[t], gedges[t]));
            }
            assert(xv.wf());
            assert(is_encoding(b@, xv));
        }
        Ok(NgtIndex::from_parts(prop, objects, live, edges, built, Ghost(xv)))
    }
}

} // verus!
