//! Copying the objects a typeset formula's page uses from the formula's own
//! PDF into the output document. An object is copied with everything it
//! refers to; each source object gets one fresh id in the output, however
//! often it is referred to, and a reference back to an object being copied
//! (a cycle) refers to that object's fresh id.

use vstd::prelude::*;

verus! {

/// A PDF object, as the import reads and writes it. A real number is held as
/// the bits of its single-precision value; a string keeps whether it is
/// written literally (`true`) or in hexadecimal.
#[derive(Debug)]
pub enum PdfObject {
    Null,
    Boolean(bool),
    Integer(i64),
    Real(u32),
    Name(Vec<u8>),
    Str(Vec<u8>, bool),
    Array(Vec<PdfObject>),
    Dictionary(Vec<(Vec<u8>, PdfObject)>),
    Stream(Vec<(Vec<u8>, PdfObject)>, Vec<u8>),
    Reference(u32, u16),
}

/// Model of a [`PdfObject`].
pub enum PdfView {
    Null,
    Boolean(bool),
    Integer(i64),
    Real(u32),
    Name(Seq<u8>),
    Str(Seq<u8>, bool),
    Array(Seq<PdfView>),
    Dictionary(Seq<(Seq<u8>, PdfView)>),
    Stream(Seq<(Seq<u8>, PdfView)>, Seq<u8>),
    Reference(u32, u16),
}

pub open spec fn obj_view(o: PdfObject) -> PdfView
    decreases o, 1nat,
{
    match o {
        PdfObject::Null => PdfView::Null,
        PdfObject::Boolean(b) => PdfView::Boolean(b),
        PdfObject::Integer(i) => PdfView::Integer(i),
        PdfObject::Real(r) => PdfView::Real(r),
        PdfObject::Name(n) => PdfView::Name(n@),
        PdfObject::Str(s, lit) => PdfView::Str(s@, lit),
        PdfObject::Array(a) => PdfView::Array(objs_view(a@)),
        PdfObject::Dictionary(d) => PdfView::Dictionary(entries_view(d@)),
        PdfObject::Stream(d, c) => PdfView::Stream(entries_view(d@), c@),
        PdfObject::Reference(n, g) => PdfView::Reference(n, g),
    }
}

pub open spec fn objs_view(s: Seq<PdfObject>) -> Seq<PdfView>
    decreases s, 0nat,
{
    if s.len() == 0 {
        Seq::empty()
    } else {
        objs_view(s.drop_last()).push(obj_view(s.last()))
    }
}

pub open spec fn entries_view(s: Seq<(Vec<u8>, PdfObject)>) -> Seq<(Seq<u8>, PdfView)>
    decreases s, 0nat,
{
    if s.len() == 0 {
        Seq::empty()
    } else {
        entries_view(s.drop_last()).push((s.last().0@, obj_view(s.last().1)))
    }
}

/// The objects of a document by id, as pairs.
pub open spec fn doc_view(s: Seq<((u32, u16), PdfObject)>) -> Seq<((u32, u16), PdfView)> {
    s.map_values(|p: ((u32, u16), PdfObject)| (p.0, obj_view(p.1)))
}

/// The value of the first pair whose key is `k`.
pub open spec fn lookup<K, V>(s: Seq<(K, V)>, k: K) -> Option<V>
    decreases s.len(),
{
    if s.len() == 0 {
        None
    } else if s[0].0 == k {
        Some(s[0].1)
    } else {
        lookup(s.drop_first(), k)
    }
}

/// The keys of a list of pairs.
pub open spec fn keys<K, V>(s: Seq<(K, V)>) -> Seq<K> {
    s.map_values(|p: (K, V)| p.0)
}

/// Where an import stands: the highest id used in the output, the source
/// ids copied so far with their fresh ids, and the copied objects.
pub struct ImportState {
    pub next: int,
    pub imported: Seq<((u32, u16), (u32, u16))>,
    pub out: Seq<((u32, u16), PdfView)>,
}

/// Copies `o`, reading referenced objects from `src`. A reference to an
/// object already copied refers to its fresh id. Otherwise the referenced
/// object gets the next id, is recorded as copied, and is copied itself; the
/// copy joins the output under that id. `None` when a reference names no
/// object of `src`. `fuel` bounds how deep references are followed.
pub open spec fn import_obj(src: Seq<((u32, u16), PdfView)>, o: PdfView, st: ImportState, fuel: nat) -> Option<
    (PdfView, ImportState),
>
    decreases fuel, o, 1nat,
{
    match o {
        PdfView::Array(a) => match import_arr(src, a, st, fuel) {
            Some((a2, st2)) => Some((PdfView::Array(a2), st2)),
            None => None,
        },
        PdfView::Dictionary(d) => match import_dict(src, d, st, fuel) {
            Some((d2, st2)) => Some((PdfView::Dictionary(d2), st2)),
            None => None,
        },
        PdfView::Stream(d, c) => match import_dict(src, d, st, fuel) {
            Some((d2, st2)) => Some((PdfView::Stream(d2, c), st2)),
            None => None,
        },
        PdfView::Reference(n, g) => match lookup(st.imported, (n, g)) {
            Some(id) => Some((PdfView::Reference(id.0, id.1), st)),
            None => match lookup(src, (n, g)) {
                None => None,
                Some(target) => if fuel == 0 {
                    None
                } else {
                    let id: (u32, u16) = ((st.next + 1) as u32, 0u16);
                    let st1 = ImportState {
                        next: st.next + 1,
                        imported: st.imported.push(((n, g), id)),
                        out: st.out,
                    };
                    match import_obj(src, target, st1, (fuel - 1) as nat) {
                        Some((copied, st2)) => Some(
                            (PdfView::Reference(id.0, id.1), ImportState { out: st2.out.push((id, copied)), ..st2 }),
                        ),
                        None => None,
                    }
                },
            },
        },
        _ => Some((o, st)),
    }
}

/// Copies the elements of an array in order.
pub open spec fn import_arr(src: Seq<((u32, u16), PdfView)>, a: Seq<PdfView>, st: ImportState, fuel: nat) -> Option<
    (Seq<PdfView>, ImportState),
>
    decreases fuel, a, 0nat,
{
    if a.len() == 0 {
        Some((Seq::empty(), st))
    } else {
        match import_arr(src, a.drop_last(), st, fuel) {
            Some((a1, st1)) => match import_obj(src, a.last(), st1, fuel) {
                Some((x, st2)) => Some((a1.push(x), st2)),
                None => None,
            },
            None => None,
        }
    }
}

/// Copies the values of a dictionary in order, keeping the keys.
pub open spec fn import_dict(
    src: Seq<((u32, u16), PdfView)>,
    d: Seq<(Seq<u8>, PdfView)>,
    st: ImportState,
    fuel: nat,
) -> Option<(Seq<(Seq<u8>, PdfView)>, ImportState)>
    decreases fuel, d, 0nat,
{
    if d.len() == 0 {
        Some((Seq::empty(), st))
    } else {
        match import_dict(src, d.drop_last(), st, fuel) {
            Some((d1, st1)) => match import_obj(src, d.last().1, st1, fuel) {
                Some((x, st2)) => Some((d1.push((d.last().0, x)), st2)),
                None => None,
            },
            None => None,
        }
    }
}

/// The ids of the source objects.
pub open spec fn src_ids(src: Seq<((u32, u16), PdfView)>) -> Set<(u32, u16)> {
    keys(src).to_set()
}

/// An import state that can go on: each source id is copied at most once,
/// only source ids are copied, the ids still to hand out fit in `u32`, and
/// `fuel` reaches every id not yet copied.
pub open spec fn import_ok(src: Seq<((u32, u16), PdfView)>, st: ImportState, fuel: nat) -> bool {
    &&& keys(st.imported).no_duplicates()
    &&& forall|i: int| 0 <= i < st.imported.len() ==> src_ids(src).contains(#[trigger] st.imported[i].0)
    &&& 0 <= st.next
    &&& st.next + src_ids(src).len() - st.imported.len() <= u32::MAX
    &&& fuel + st.imported.len() >= src_ids(src).len()
}

proof fn lemma_lookup_none<K, V>(s: Seq<(K, V)>, k: K)
    ensures
        lookup(s, k) is None <==> (forall|i: int| 0 <= i < s.len() ==> #[trigger] s[i].0 != k),
        lookup(s, k) is Some ==> exists|i: int| 0 <= i < s.len() && #[trigger] s[i].0 == k,
    decreases s.len(),
{
    if s.len() > 0 {
        lemma_lookup_none(s.drop_first(), k);
        if lookup(s, k) is Some && s[0].0 != k {
            let j = choose|j: int| 0 <= j < s.drop_first().len() && #[trigger] s.drop_first()[j].0 == k;
            assert(s[j + 1].0 == k);
        }
        if lookup(s, k) is Some && s[0].0 == k {
            assert(s[0].0 == k);
        }
        if lookup(s, k) is None {
            assert forall|i: int| 0 <= i < s.len() implies #[trigger] s[i].0 != k by {
                if i > 0 {
                    assert(s[i] == s.drop_first()[i - 1]);
                }
            }
        }
    }
}

proof fn lemma_keys_push<K, V>(s: Seq<(K, V)>, p: (K, V))
    ensures
        keys(s.push(p)) == keys(s).push(p.0),
{
    assert(keys(s.push(p)) =~= keys(s).push(p.0));
}

/// From a consistent import state, a reference to a source object not yet
/// copied always finds fuel left and a fresh id that fits, and copying it
/// leaves the state consistent with one less fuel: the import never stops
/// for want of fuel.
pub proof fn law_new_id_ok(src: Seq<((u32, u16), PdfView)>, st: ImportState, fuel: nat, k: (u32, u16), id: (u32, u16))
    requires
        import_ok(src, st, fuel),
        lookup(st.imported, k) is None,
        lookup(src, k) is Some,
    ensures
        fuel > 0,
        st.next + 1 <= u32::MAX,
        import_ok(
            src,
            ImportState { next: st.next + 1, imported: st.imported.push((k, id)), out: st.out },
            (fuel - 1) as nat,
        ),
{
    lemma_lookup_none(st.imported, k);
    lemma_lookup_none(src, k);
    let i0 = choose|i: int| 0 <= i < src.len() && #[trigger] src[i].0 == k;
    assert(keys(src)[i0] == k);
    assert(src_ids(src).contains(k));
    let ks = keys(st.imported);
    lemma_keys_push(st.imported, (k, id));
    let ks2 = ks.push(k);
    assert forall|i: int| 0 <= i < ks.len() implies #[trigger] ks[i] != k by {
        assert(ks[i] == st.imported[i].0);
    }
    assert(ks2.no_duplicates()) by {
        assert forall|a: int, b: int| 0 <= a < ks2.len() && 0 <= b < ks2.len() && a != b implies ks2[a] != ks2[b] by {
            if a < ks.len() && b < ks.len() {
            } else if a < ks.len() {
                assert(ks2[a] == ks[a]);
            } else {
                assert(ks2[b] == ks[b]);
            }
        }
    }
    assert(ks2.to_set().subset_of(src_ids(src))) by {
        assert forall|x: (u32, u16)| ks2.to_set().contains(x) implies src_ids(src).contains(x) by {
            let j = choose|j: int| 0 <= j < ks2.len() && ks2[j] == x;
            if j < ks.len() {
                assert(ks2[j] == st.imported[j].0);
            }
        }
    }
    ks2.unique_seq_to_set();
    vstd::seq_lib::seq_to_set_is_finite(keys(src));
    vstd::set_lib::lemma_len_subset(ks2.to_set(), src_ids(src));
    let st1 = ImportState { next: st.next + 1, imported: st.imported.push((k, id)), out: st.out };
    assert forall|i: int| 0 <= i < st1.imported.len() implies src_ids(src).contains(#[trigger] st1.imported[i].0) by {
        if i < st.imported.len() {
            assert(st1.imported[i] == st.imported[i]);
        }
    }
    assert(keys(st1.imported) == ks2);
}

// ---------------------------------------------------------------------------
// The import
// ---------------------------------------------------------------------------

spec fn state_of(next: u32, imported: Seq<((u32, u16), (u32, u16))>, out: Seq<((u32, u16), PdfObject)>) -> ImportState {
    ImportState { next: next as int, imported, out: doc_view(out) }
}

/// What the import keeps true of its state as it goes.
spec fn grows(a: ImportState, b: ImportState, src: Seq<((u32, u16), PdfView)>, fuel: nat) -> bool {
    &&& b.imported.len() >= a.imported.len()
    &&& import_ok(src, b, fuel)
}

fn lookup_id(s: &Vec<((u32, u16), (u32, u16))>, k: (u32, u16)) -> (r: Option<(u32, u16)>)
    ensures
        r == lookup(s@, k),
{
    let mut i: usize = 0;
    assert(s@.skip(0) == s@);
    while i < s.len()
        invariant
            i <= s.len(),
            lookup(s@, k) == lookup(s@.skip(i as int), k),
        decreases s.len() - i,
    {
        assert(s@.skip(i as int)[0] == s@[i as int]);
        if s[i].0.0 == k.0 && s[i].0.1 == k.1 {
            return Some(s[i].1);
        }
        assert(s@.skip(i as int).drop_first() == s@.skip(i + 1));
        i = i + 1;
    }
    None
}

fn lookup_obj(s: &Vec<((u32, u16), PdfObject)>, k: (u32, u16)) -> (r: Option<&PdfObject>)
    ensures
        match r {
            Some(o) => lookup(doc_view(s@), k) == Some(obj_view(*o)),
            None => lookup(doc_view(s@), k) is None,
        },
{
    let ghost dv = doc_view(s@);
    let mut i: usize = 0;
    assert(dv.skip(0) == dv);
    while i < s.len()
        invariant
            i <= s.len(),
            dv == doc_view(s@),
            dv.len() == s.len(),
            lookup(dv, k) == lookup(dv.skip(i as int), k),
        decreases s.len() - i,
    {
        assert(dv.skip(i as int)[0] == dv[i as int]);
        assert(dv[i as int] == (s@[i as int].0, obj_view(s@[i as int].1)));
        if s[i].0.0 == k.0 && s[i].0.1 == k.1 {
            return Some(&s[i].1);
        }
        assert(dv.skip(i as int).drop_first() == dv.skip(i + 1));
        i = i + 1;
    }
    None
}

fn copy_bytes(b: &Vec<u8>) -> (r: Vec<u8>)
    ensures
        r@ == b@,
{
    let mut r: Vec<u8> = Vec::new();
    let mut i: usize = 0;
    while i < b.len()
        invariant
            i <= b.len(),
            r@ == b@.take(i as int),
        decreases b.len() - i,
    {
        r.push(b[i]);
        assert(b@.take(i + 1) == b@.take(i as int).push(b@[i as int]));
        i = i + 1;
    }
    assert(b@.take(b.len() as int) == b@);
    r
}

fn push_out(out: &mut Vec<((u32, u16), PdfObject)>, id: (u32, u16), o: PdfObject)
    ensures
        doc_view(final(out)@) == doc_view(old(out)@).push((id, obj_view(o))),
{
    let ghost before = out@;
    out.push((id, o));
    assert(doc_view(out@) =~= doc_view(before).push((id, obj_view(o))));
}

fn import_rec(
    src: &Vec<((u32, u16), PdfObject)>,
    next: &mut u32,
    o: &PdfObject,
    imported: &mut Vec<((u32, u16), (u32, u16))>,
    out: &mut Vec<((u32, u16), PdfObject)>,
    Ghost(fuel): Ghost<nat>,
) -> (r: Option<PdfObject>)
    requires
        import_ok(doc_view(src@), state_of(*old(next), old(imported)@, old(out)@), fuel),
    ensures
        match import_obj(doc_view(src@), obj_view(*o), state_of(*old(next), old(imported)@, old(out)@), fuel) {
            Some((v, st2)) => r is Some && obj_view(r->0) == v && state_of(*final(next), final(imported)@, final(out)@)
                == st2 && grows(
                state_of(*old(next), old(imported)@, old(out)@),
                st2,
                doc_view(src@),
                fuel,
            ),
            None => r is None,
        },
    decreases fuel, *o, 1nat,
{
    let ghost sv = doc_view(src@);
    let ghost st = state_of(*next, imported@, out@);
    match o {
        PdfObject::Array(a) => {
            match import_vec(src, next, a, imported, out, Ghost(fuel)) {
                Some(a2) => Some(PdfObject::Array(a2)),
                None => None,
            }
        },
        PdfObject::Dictionary(d) => {
            match import_entries(src, next, d, imported, out, Ghost(fuel)) {
                Some(d2) => Some(PdfObject::Dictionary(d2)),
                None => None,
            }
        },
        PdfObject::Stream(d, c) => {
            match import_entries(src, next, d, imported, out, Ghost(fuel)) {
                Some(d2) => Some(PdfObject::Stream(d2, copy_bytes(c))),
                None => None,
            }
        },
        PdfObject::Reference(n, g) => {
            let k = (*n, *g);
            match lookup_id(imported, k) {
                Some(id) => Some(PdfObject::Reference(id.0, id.1)),
                None => {
                    match lookup_obj(src, k) {
                        None => None,
                        Some(target) => {
                            proof {
                                law_new_id_ok(sv, st, fuel, k, (((st.next + 1) as u32), 0u16));
                            }
                            *next = *next + 1;
                            let id: (u32, u16) = (*next, 0);
                            imported.push((k, id));
                            match import_rec(src, next, target, imported, out, Ghost((fuel - 1) as nat)) {
                                Some(copied) => {
                                    proof {
                                        let st2 = state_of(*next, imported@, out@);
                                        assert(import_ok(sv, st2, (fuel - 1) as nat));
                                    }
                                    push_out(out, id, copied);
                                    Some(PdfObject::Reference(id.0, id.1))
                                },
                                None => None,
                            }
                        },
                    }
                },
            }
        },
        PdfObject::Null => Some(PdfObject::Null),
        PdfObject::Boolean(b) => Some(PdfObject::Boolean(*b)),
        PdfObject::Integer(i) => Some(PdfObject::Integer(*i)),
        PdfObject::Real(x) => Some(PdfObject::Real(*x)),
        PdfObject::Name(b) => Some(PdfObject::Name(copy_bytes(b))),
        PdfObject::Str(b, lit) => Some(PdfObject::Str(copy_bytes(b), *lit)),
    }
}

fn import_vec(
    src: &Vec<((u32, u16), PdfObject)>,
    next: &mut u32,
    a: &Vec<PdfObject>,
    imported: &mut Vec<((u32, u16), (u32, u16))>,
    out: &mut Vec<((u32, u16), PdfObject)>,
    Ghost(fuel): Ghost<nat>,
) -> (r: Option<Vec<PdfObject>>)
    requires
        import_ok(doc_view(src@), state_of(*old(next), old(imported)@, old(out)@), fuel),
    ensures
        match import_arr(doc_view(src@), objs_view(a@), state_of(*old(next), old(imported)@, old(out)@), fuel) {
            Some((v, st2)) => r is Some && objs_view(r->0@) == v && state_of(*final(next), final(imported)@, final(out)@)
                == st2 && grows(
                state_of(*old(next), old(imported)@, old(out)@),
                st2,
                doc_view(src@),
                fuel,
            ),
            None => r is None,
        },
    decreases fuel, a@, 0nat,
{
    let ghost sv = doc_view(src@);
    let ghost st0 = state_of(*next, imported@, out@);
    let mut r: Vec<PdfObject> = Vec::new();
    let mut i: usize = 0;
    assert(a@.take(0) == Seq::<PdfObject>::empty());
    assert(objs_view(r@) == Seq::<PdfView>::empty());
    while i < a.len()
        invariant
            i <= a.len(),
            sv == doc_view(src@),
            st0 == state_of(*old(next), old(imported)@, old(out)@),
            import_arr(sv, objs_view(a@.take(i as int)), st0, fuel) == Some(
                (objs_view(r@), state_of(*next, imported@, out@)),
            ),
            grows(st0, state_of(*next, imported@, out@), sv, fuel),
        decreases a.len() - i,
    {
        let ghost pre = a@.take(i as int);
        let ghost st1 = state_of(*next, imported@, out@);
        let ghost rv = objs_view(r@);
        proof {
            assert(a@.take(i + 1).drop_last() == pre);
            assert(a@.take(i + 1).last() == a@[i as int]);
            assert(objs_view(a@.take(i + 1)) == objs_view(pre).push(obj_view(a@[i as int])));
        }
        match import_rec(src, next, &a[i], imported, out, Ghost(fuel)) {
            Some(x) => {
                let ghost rb = r@;
                r.push(x);
                proof {
                    assert(r@.drop_last() == rb);
                    assert(objs_view(r@) == rv.push(obj_view(x)));
                    let c = objs_view(a@.take(i + 1));
                    assert(c.drop_last() == objs_view(pre));
                    assert(c.last() == obj_view(a@[i as int]));
                }
            },
            None => {
                proof {
                    let c = objs_view(a@.take(i + 1));
                    assert(c.drop_last() == objs_view(pre));
                    assert(c.last() == obj_view(a@[i as int]));
                    assert(import_arr(sv, objs_view(pre), st0, fuel) == Some((rv, st1)));
                    assert(import_obj(sv, obj_view(a@[i as int]), st1, fuel) is None);
                    assert(import_arr(sv, c, st0, fuel) is None);
                    lemma_objs_view_take(a@, i + 1);
                    lemma_arr_none_prefix(sv, objs_view(a@), st0, fuel, i + 1);
                }
                return None;
            },
        }
        i = i + 1;
    }
    assert(a@.take(a.len() as int) == a@);
    Some(r)
}

proof fn lemma_objs_view_take(s: Seq<PdfObject>, k: int)
    requires
        0 <= k <= s.len(),
    ensures
        objs_view(s).len() == s.len(),
        objs_view(s.take(k)) == objs_view(s).take(k),
    decreases s.len(),
{
    if s.len() > 0 {
        lemma_objs_view_take(s.drop_last(), if k < s.len() { k } else { 0 });
    }
    if k == s.len() {
        assert(s.take(k) == s);
        assert(objs_view(s).take(k) == objs_view(s));
    } else {
        assert(s.take(k) == s.drop_last().take(k));
        assert(objs_view(s).take(k) == objs_view(s.drop_last()).take(k));
    }
}

proof fn lemma_entries_view_take(s: Seq<(Vec<u8>, PdfObject)>, k: int)
    requires
        0 <= k <= s.len(),
    ensures
        entries_view(s).len() == s.len(),
        entries_view(s.take(k)) == entries_view(s).take(k),
    decreases s.len(),
{
    if s.len() > 0 {
        lemma_entries_view_take(s.drop_last(), if k < s.len() { k } else { 0 });
    }
    if k == s.len() {
        assert(s.take(k) == s);
        assert(entries_view(s).take(k) == entries_view(s));
    } else {
        assert(s.take(k) == s.drop_last().take(k));
        assert(entries_view(s).take(k) == entries_view(s.drop_last()).take(k));
    }
}

/// A failure on a prefix of an array is a failure on the whole array.
proof fn lemma_arr_none_prefix(src: Seq<((u32, u16), PdfView)>, a: Seq<PdfView>, st: ImportState, fuel: nat, k: int)
    requires
        0 <= k <= a.len(),
        import_arr(src, a.take(k), st, fuel) is None,
    ensures
        import_arr(src, a, st, fuel) is None,
    decreases a.len() - k,
{
    if k < a.len() {
        let b = a.take(k + 1);
        assert(b.drop_last() == a.take(k));
        assert(import_arr(src, b, st, fuel) is None);
        lemma_arr_none_prefix(src, a, st, fuel, k + 1);
    } else {
        assert(a.take(k) == a);
    }
}

proof fn lemma_dict_none_prefix(
    src: Seq<((u32, u16), PdfView)>,
    d: Seq<(Seq<u8>, PdfView)>,
    st: ImportState,
    fuel: nat,
    k: int,
)
    requires
        0 <= k <= d.len(),
        import_dict(src, d.take(k), st, fuel) is None,
    ensures
        import_dict(src, d, st, fuel) is None,
    decreases d.len() - k,
{
    if k < d.len() {
        let b = d.take(k + 1);
        assert(b.drop_last() == d.take(k));
        assert(import_dict(src, b, st, fuel) is None);
        lemma_dict_none_prefix(src, d, st, fuel, k + 1);
    } else {
        assert(d.take(k) == d);
    }
}

fn import_entries(
    src: &Vec<((u32, u16), PdfObject)>,
    next: &mut u32,
    d: &Vec<(Vec<u8>, PdfObject)>,
    imported: &mut Vec<((u32, u16), (u32, u16))>,
    out: &mut Vec<((u32, u16), PdfObject)>,
    Ghost(fuel): Ghost<nat>,
) -> (r: Option<Vec<(Vec<u8>, PdfObject)>>)
    requires
        import_ok(doc_view(src@), state_of(*old(next), old(imported)@, old(out)@), fuel),
    ensures
        match import_dict(doc_view(src@), entries_view(d@), state_of(*old(next), old(imported)@, old(out)@), fuel) {
            Some((v, st2)) => r is Some && entries_view(r->0@) == v && state_of(*final(next), final(imported)@, final(out)@)
                == st2 && grows(
                state_of(*old(next), old(imported)@, old(out)@),
                st2,
                doc_view(src@),
                fuel,
            ),
            None => r is None,
        },
    decreases fuel, d@, 0nat,
{
    let ghost sv = doc_view(src@);
    let ghost st0 = state_of(*next, imported@, out@);
    let mut r: Vec<(Vec<u8>, PdfObject)> = Vec::new();
    let mut i: usize = 0;
    assert(d@.take(0) == Seq::<(Vec<u8>, PdfObject)>::empty());
    assert(entries_view(r@) == Seq::<(Seq<u8>, PdfView)>::empty());
    while i < d.len()
        invariant
            i <= d.len(),
            sv == doc_view(src@),
            st0 == state_of(*old(next), old(imported)@, old(out)@),
            import_dict(sv, entries_view(d@.take(i as int)), st0, fuel) == Some(
                (entries_view(r@), state_of(*next, imported@, out@)),
            ),
            grows(st0, state_of(*next, imported@, out@), sv, fuel),
        decreases d.len() - i,
    {
        let ghost pre = d@.take(i as int);
        let ghost st1 = state_of(*next, imported@, out@);
        let ghost rv = entries_view(r@);
        proof {
            assert(d@.take(i + 1).drop_last() == pre);
            assert(d@.take(i + 1).last() == d@[i as int]);
            assert(entries_view(d@.take(i + 1)) == entries_view(pre).push(
                (d@[i as int].0@, obj_view(d@[i as int].1)),
            ));
        }
        let entry = &d[i];
        match import_rec(src, next, &entry.1, imported, out, Ghost(fuel)) {
            Some(x) => {
                let key = copy_bytes(&entry.0);
                let ghost rb = r@;
                r.push((key, x));
                proof {
                    assert(r@.drop_last() == rb);
                    assert(entries_view(r@) == rv.push((key@, obj_view(x))));
                    let c = entries_view(d@.take(i + 1));
                    assert(c.drop_last() == entries_view(pre));
                    assert(c.last() == (d@[i as int].0@, obj_view(d@[i as int].1)));
                }
            },
            None => {
                proof {
                    let c = entries_view(d@.take(i + 1));
                    assert(c.drop_last() == entries_view(pre));
                    assert(c.last() == (d@[i as int].0@, obj_view(d@[i as int].1)));
                    assert(import_dict(sv, entries_view(pre), st0, fuel) == Some((rv, st1)));
                    assert(import_obj(sv, obj_view(d@[i as int].1), st1, fuel) is None);
                    assert(import_dict(sv, c, st0, fuel) is None);
                    lemma_entries_view_take(d@, i + 1);
                    lemma_dict_none_prefix(sv, entries_view(d@), st0, fuel, i + 1);
                }
                return None;
            },
        }
        i = i + 1;
    }
    assert(d@.take(d.len() as int) == d@);
    Some(r)
}

/// Copies `o` out of the source document `src` for a document whose highest
/// object id is `*next`: the copy of `o` and the copied objects by their
/// fresh ids, or `None` when a reference reachable from `o` names no object
/// of `src`. `*next` becomes the highest id used.
pub fn import_object(src: &Vec<((u32, u16), PdfObject)>, next: &mut u32, o: &PdfObject) -> (r: Option<
    (PdfObject, Vec<((u32, u16), PdfObject)>),
>)
    requires
        *old(next) + src.len() <= u32::MAX,
    ensures
        match import_obj(
            doc_view(src@),
            obj_view(*o),
            ImportState { next: *old(next) as int, imported: Seq::empty(), out: Seq::empty() },
            src.len() as nat,
        ) {
            Some((v, st2)) => r is Some && obj_view((r->0).0) == v && doc_view((r->0).1@) == st2.out && *final(next)
                == st2.next,
            None => r is None,
        },
{
    let mut imported: Vec<((u32, u16), (u32, u16))> = Vec::new();
    let mut out: Vec<((u32, u16), PdfObject)> = Vec::new();
    proof {
        let sv = doc_view(src@);
        keys(sv).lemma_cardinality_of_set();
        assert(keys(sv).len() == src.len());
        assert(keys(imported@) =~= Seq::<(u32, u16)>::empty());
        assert(doc_view(out@) =~= Seq::<((u32, u16), PdfView)>::empty());
    }
    match import_rec(src, next, o, &mut imported, &mut out, Ghost(src.len() as nat)) {
        Some(copied) => Some((copied, out)),
        None => None,
    }
}

/// The import never runs short of fuel: from an empty start whose fresh ids
/// fit, following references as deep as there are source objects suffices,
/// and the state stays consistent.
pub proof fn law_fuel_suffices(src: Seq<((u32, u16), PdfView)>, next: int)
    requires
        0 <= next,
        next + src.len() <= u32::MAX,
    ensures
        import_ok(src, ImportState { next, imported: Seq::empty(), out: Seq::empty() }, src.len()),
{
    keys(src).lemma_cardinality_of_set();
    assert(keys(src).len() == src.len());
    assert(keys(Seq::<((u32, u16), (u32, u16))>::empty()) =~= Seq::<(u32, u16)>::empty());
}

} // verus!
