use vstd::prelude::*;

use crate::doc::{
    doc_get_field, docs_model, lemma_filter_wf, lemma_merged_lookup, merge_documents, merged,
    names_model, project_document, projected, the_field_index,
};
use crate::identity::{batch_keys_distinct, batch_pk_ok, pk_ok};
use crate::value::{
    clone_bytes, field_value, has_field, is_scalar, lemma_field_value_absent,
    lemma_scalar_eq_is_eq, scalar_eq_model, wf_fields, Document, FieldModel, ValModel, Value,
};

verus! {

/// How an addition treats a document whose key is already committed:
/// replace it wholesale, or merge field-wise into it.
#[derive(Clone, Copy, Debug, PartialEq, Eq, Structural)]
pub enum UpdateMethod {
    ReplaceDocuments,
    UpdateDocuments,
}

/// The models of a list of id values.
pub open spec fn ids_model(s: Seq<Value>) -> Seq<ValModel> {
    Seq::new(s.len(), |i: int| s[i]@)
}

/// The index of the first committed document whose key under `pk` equals
/// `idv`, or -1 when there is none.
pub open spec fn key_idx(docs: Seq<Seq<FieldModel>>, pk: Seq<u8>, idv: ValModel) -> int
    decreases docs.len(),
{
    if docs.len() == 0 {
        -1
    } else if scalar_eq_model(field_value(docs[0], pk), idv) {
        0
    } else {
        let r = key_idx(docs.drop_first(), pk, idv);
        if r < 0 {
            -1
        } else {
            r + 1
        }
    }
}

/// `key_idx` finds the first match, and -1 exactly when nothing matches.
pub proof fn lemma_key_idx(docs: Seq<Seq<FieldModel>>, pk: Seq<u8>, idv: ValModel)
    ensures
        -1 <= key_idx(docs, pk, idv) < docs.len(),
        key_idx(docs, pk, idv) >= 0 ==> scalar_eq_model(
            field_value(docs[key_idx(docs, pk, idv)], pk),
            idv,
        ),
        forall|j: int|
            0 <= j < docs.len() && (j < key_idx(docs, pk, idv) || key_idx(docs, pk, idv) == -1)
                ==> !scalar_eq_model(field_value(#[trigger] docs[j], pk), idv),
    decreases docs.len(),
{
    if docs.len() > 0 {
        let dfst = docs.drop_first();
        lemma_key_idx(dfst, pk, idv);
        assert(forall|j: int| 0 <= j < dfst.len() ==> #[trigger] dfst[j] == docs[j + 1]);
        if !scalar_eq_model(field_value(docs[0], pk), idv) {
            let r = key_idx(dfst, pk, idv);
            assert forall|j: int|
                0 <= j < docs.len() && (j < key_idx(docs, pk, idv) || key_idx(docs, pk, idv)
                    == -1) implies !scalar_eq_model(
                field_value(#[trigger] docs[j], pk),
                idv,
            ) by {
                if j > 0 {
                    assert(docs[j] == dfst[j - 1]);
                }
            }
        }
    }
}

/// One document entering the committed set: it replaces or merges into the
/// committed document with the same key, or is appended when its key is new.
pub open spec fn upsert_model(
    docs: Seq<Seq<FieldModel>>,
    pk: Seq<u8>,
    d: Seq<FieldModel>,
    replace: bool,
) -> Seq<Seq<FieldModel>> {
    let w = key_idx(docs, pk, field_value(d, pk));
    if w == -1 {
        docs.push(d)
    } else if replace {
        docs.update(w, d)
    } else {
        docs.update(w, merged(docs[w], d))
    }
}

/// A whole batch entering the committed set, document by document, in batch
/// order: a later document with the same key wins over an earlier one.
pub open spec fn apply_add_model(
    docs: Seq<Seq<FieldModel>>,
    pk: Seq<u8>,
    batch: Seq<Seq<FieldModel>>,
    replace: bool,
) -> Seq<Seq<FieldModel>>
    decreases batch.len(),
{
    if batch.len() == 0 {
        docs
    } else {
        apply_add_model(upsert_model(docs, pk, batch[0], replace), pk, batch.drop_first(), replace)
    }
}

/// Unrolling `apply_add_model` from the right.
pub proof fn lemma_apply_add_snoc(
    docs: Seq<Seq<FieldModel>>,
    pk: Seq<u8>,
    batch: Seq<Seq<FieldModel>>,
    d: Seq<FieldModel>,
    replace: bool,
)
    ensures
        apply_add_model(docs, pk, batch.push(d), replace) == upsert_model(
            apply_add_model(docs, pk, batch, replace),
            pk,
            d,
            replace,
        ),
    decreases batch.len(),
{
    if batch.len() == 0 {
        assert(batch.push(d)[0] == d);
        assert(batch.push(d).drop_first() =~= Seq::<Seq<FieldModel>>::empty());
        assert(apply_add_model(upsert_model(docs, pk, d, replace), pk, Seq::empty(), replace)
            == upsert_model(docs, pk, d, replace));
    } else {
        assert(batch.push(d)[0] == batch[0]);
        assert(batch.push(d).drop_first() =~= batch.drop_first().push(d));
        lemma_apply_add_snoc(upsert_model(docs, pk, batch[0], replace), pk, batch.drop_first(), d, replace);
    }
}

/// Documents kept by a delete-by-id-list: those whose key matches no id.
pub open spec fn kept(pk: Seq<u8>, ids: Seq<ValModel>) -> spec_fn(Seq<FieldModel>) -> bool {
    |d: Seq<FieldModel>|
        !exists|i: int| 0 <= i < ids.len() && scalar_eq_model(field_value(d, pk), #[trigger] ids[i])
}

/// One page of the committed sequence: documents `offset` to
/// `offset + limit`, clipped to the document count.
pub open spec fn page(docs: Seq<Seq<FieldModel>>, offset: int, limit: int) -> Seq<Seq<FieldModel>> {
    let lo = if offset <= docs.len() {
        offset
    } else {
        docs.len() as int
    };
    let hi = if offset + limit <= docs.len() {
        offset + limit
    } else {
        docs.len() as int
    };
    docs.subrange(lo, hi)
}

/// Every document projected onto the requested attributes.
pub open spec fn project_all(docs: Seq<Seq<FieldModel>>, attrs: Seq<Seq<u8>>) -> Seq<
    Seq<FieldModel>,
> {
    Seq::new(docs.len(), |i: int| projected(docs[i], attrs))
}

/// Filtering a well-formed committed sequence keeps every invariant: each
/// kept document is one of the originals, keys stay pairwise distinct.
pub proof fn lemma_filter_docs(
    docs: Seq<Seq<FieldModel>>,
    pk: Seq<u8>,
    p: spec_fn(Seq<FieldModel>) -> bool,
)
    requires
        forall|i: int| 0 <= i < docs.len() ==> wf_fields(#[trigger] docs[i]),
        batch_pk_ok(docs, pk),
        batch_keys_distinct(docs, pk),
    ensures
        forall|i: int|
            0 <= i < docs.filter(p).len() ==> docs.contains(#[trigger] docs.filter(p)[i]),
        forall|i: int| 0 <= i < docs.filter(p).len() ==> wf_fields(#[trigger] docs.filter(p)[i]),
        batch_pk_ok(docs.filter(p), pk),
        batch_keys_distinct(docs.filter(p), pk),
    decreases docs.len(),
{
    let f = docs.filter(p);
    if docs.len() == 0 {
        assert(f =~= docs);
    } else {
        let dl = docs.drop_last();
        let last = docs.last();
        let fdl = dl.filter(p);
        assert(forall|i: int| 0 <= i < dl.len() ==> dl[i] == docs[i]);
        lemma_filter_docs(dl, pk, p);
        dl.lemma_filter_push(last, p);
        assert(docs =~= dl.push(last));
        assert(forall|i: int| 0 <= i < dl.len() ==> docs.contains(#[trigger] dl[i]));
        assert(docs.contains(last));
        if p(last) {
            assert(f == fdl.push(last));
            assert(forall|i: int| 0 <= i < fdl.len() ==> f[i] == fdl[i]);
            assert forall|i: int, j: int| 0 <= i < j < f.len() implies !scalar_eq_model(
                field_value(#[trigger] f[i], pk),
                field_value(#[trigger] f[j], pk),
            ) by {
                if j == f.len() - 1 {
                    assert(dl.contains(f[i]));
                    let v = choose|v: int| 0 <= v < dl.len() && dl[v] == f[i];
                    assert(!scalar_eq_model(field_value(docs[v], pk), field_value(
                        docs[docs.len() - 1],
                        pk,
                    )));
                }
            }
        } else {
            assert(f == fdl);
        }
        assert forall|i: int| 0 <= i < f.len() implies docs.contains(#[trigger] f[i]) && wf_fields(
            f[i],
        ) && pk_ok(f[i], pk) by {
            if p(last) && i == f.len() - 1 {
            } else {
                assert(f[i] == fdl[i]);
                assert(dl.contains(fdl[i]));
                let v = choose|v: int| 0 <= v < dl.len() && dl[v] == f[i];
                assert(docs[v] == f[i]);
            }
        }
    }
}

/// The committed state of one index: the primary key field, once
/// established, and the committed documents in the engine's natural
/// (insertion) order.
pub struct IndexState {
    pub primary_key: Option<Vec<u8>>,
    pub docs: Vec<Document>,
}

impl IndexState {
    /// The model of the primary key field name.
    pub open spec fn pk_model(self) -> Option<Seq<u8>> {
        match self.primary_key {
            Some(k) => Some(k@),
            None => None,
        }
    }

    /// The models of the committed documents.
    pub open spec fn doc_seq(self) -> Seq<Seq<FieldModel>> {
        docs_model(self.docs@)
    }

    /// Invariant: documents are well-formed; once a primary key is
    /// established every document holds a scalar under it and the key values
    /// are pairwise distinct; without a primary key the index is empty.
    pub open spec fn wf(self) -> bool {
        &&& forall|i: int| 0 <= i < self.doc_seq().len() ==> wf_fields(#[trigger] self.doc_seq()[i])
        &&& match self.pk_model() {
            Some(k) => batch_pk_ok(self.doc_seq(), k) && batch_keys_distinct(self.doc_seq(), k),
            None => self.doc_seq().len() == 0,
        }
    }

    /// A fresh, empty index with no primary key.
    pub fn new() -> (r: IndexState)
        ensures
            r.wf(),
            r.pk_model() is None,
            r.doc_seq().len() == 0,
    {
        IndexState { primary_key: None, docs: Vec::new() }
    }

    /// The position of the committed document whose key equals `id`.
    fn find_by_key(&self, pk: &Vec<u8>, id: &Value) -> (r: Option<usize>)
        ensures
            match r {
                Some(w) => key_idx(self.doc_seq(), pk@, id@) == w as int,
                None => key_idx(self.doc_seq(), pk@, id@) == -1,
            },
    {
        proof {
            lemma_key_idx(self.doc_seq(), pk@, id@);
        }
        let mut i: usize = 0;
        while i < self.docs.len()
            invariant
                i <= self.docs.len(),
                forall|j: int|
                    0 <= j < i as int ==> !scalar_eq_model(
                        field_value(#[trigger] self.doc_seq()[j], pk@),
                        id@,
                    ),
            decreases self.docs.len() - i,
        {
            let hit = match doc_get_field(&self.docs[i], pk) {
                Some(v) => v.scalar_eq(id),
                None => false,
            };
            proof {
                if !has_field(self.doc_seq()[i as int], pk@) {
                    lemma_field_value_absent(self.doc_seq()[i as int], pk@);
                }
            }
            if hit {
                proof {
                    lemma_key_idx(self.doc_seq(), pk@, id@);
                    assert(key_idx(self.doc_seq(), pk@, id@) == i as int);
                }
                return Some(i);
            }
            i = i + 1;
        }
        proof {
            lemma_key_idx(self.doc_seq(), pk@, id@);
        }
        None
    }

    /// Single-document fetch by key value.
    pub fn get(&self, id: &Value) -> (r: Option<&Document>)
        ensures
            match self.pk_model() {
                None => r is None,
                Some(k) => {
                    &&& r is Some <==> key_idx(self.doc_seq(), k, id@) >= 0
                    &&& r matches Some(d) ==> d@ == self.doc_seq()[key_idx(self.doc_seq(), k, id@)]
                },
            },
    {
        let pk = match &self.primary_key {
            Some(k) => k,
            None => {
                return None;
            },
        };
        proof {
            lemma_key_idx(self.doc_seq(), pk@, id@);
        }
        match self.find_by_key(pk, id) {
            Some(w) => {
                proof {
                    assert(self.doc_seq()[w as int] == self.docs@[w as int]@);
                }
                Some(&self.docs[w])
            },
            None => None,
        }
    }

    /// One page of the committed documents, optionally projected onto the
    /// requested attributes. `limit = 0`, or an offset beyond the document
    /// count, gives an empty page.
    pub fn list(&self, offset: usize, limit: usize, attrs: Option<&Vec<Vec<u8>>>) -> (r: Vec<
        Document,
    >)
        ensures
            match attrs {
                None => docs_model(r@) == page(self.doc_seq(), offset as int, limit as int),
                Some(a) => docs_model(r@) == project_all(
                    page(self.doc_seq(), offset as int, limit as int),
                    names_model(a@),
                ),
            },
    {
        let n = self.docs.len();
        let lo = if offset <= n {
            offset
        } else {
            n
        };
        let count = if limit <= n - lo {
            limit
        } else {
            n - lo
        };
        let ghost pg = page(self.doc_seq(), offset as int, limit as int);
        proof {
            assert(pg.len() == count as int);
        }
        let mut out: Vec<Document> = Vec::new();
        let mut i: usize = 0;
        while i < count
            invariant
                i <= count,
                count <= n - lo,
                n == self.docs.len(),
                lo as int == if offset as int <= self.doc_seq().len() {
                    offset as int
                } else {
                    self.doc_seq().len() as int
                },
                lo + count <= self.docs.len(),
                pg == page(self.doc_seq(), offset as int, limit as int),
                pg.len() == count as int,
                out@.len() == i as int,
                forall|j: int|
                    0 <= j < i as int ==> (#[trigger] out@[j])@ == match attrs {
                        None => pg[j],
                        Some(a) => projected(pg[j], names_model(a@)),
                    },
            decreases count - i,
        {
            let d = match attrs {
                None => self.docs[lo + i].clone(),
                Some(a) => project_document(&self.docs[lo + i], a),
            };
            out.push(d);
            proof {
                assert(page(self.doc_seq(), offset as int, limit as int)[i as int]
                    == self.doc_seq()[lo as int + i as int]);
                assert(self.doc_seq()[lo as int + i as int] == self.docs@[lo as int + i as int]@);
            }
            i = i + 1;
        }
        proof {
            match attrs {
                None => {
                    assert(docs_model(out@) =~= pg);
                },
                Some(a) => {
                    assert(docs_model(out@) =~= project_all(pg, names_model(a@)));
                },
            }
        }
        out
    }

    /// Applies one document of an addition batch.
    fn upsert(&mut self, d: Document, replace: bool)
        requires
            old(self).wf(),
            old(self).pk_model() is Some,
            wf_fields(d@),
            pk_ok(d@, old(self).pk_model()->Some_0),
        ensures
            final(self).wf(),
            final(self).pk_model() == old(self).pk_model(),
            final(self).doc_seq() == upsert_model(
                old(self).doc_seq(),
                old(self).pk_model()->Some_0,
                d@,
                replace,
            ),
    {
        let ghost k = old(self).pk_model()->Some_0;
        let pk = match &self.primary_key {
            Some(p) => clone_bytes(p),
            None => Vec::new(),
        };
        let id = match doc_get_field(&d, &pk) {
            Some(v) => v.clone(),
            None => Value::Null,
        };
        proof {
            lemma_key_idx(self.doc_seq(), k, id@);
        }
        match self.find_by_key(&pk, &id) {
            Some(w) => {
                let ghost oldseq = self.doc_seq();
                let newdoc = if replace {
                    d
                } else {
                    merge_documents(&self.docs[w], &d)
                };
                proof {
                    if !replace {
                        lemma_merged_lookup(oldseq[w as int], d@);
                    }
                    lemma_scalar_eq_is_eq(field_value(oldseq[w as int], k), id@);
                }
                self.docs.remove(w);
                self.docs.insert(w, newdoc);
                proof {
                    assert(self.doc_seq() =~= upsert_model(oldseq, k, d@, replace));
                    let ns = self.doc_seq();
                    assert(field_value(ns[w as int], k) == id@);
                    assert forall|a: int, b: int| 0 <= a < b < ns.len() implies !scalar_eq_model(
                        field_value(#[trigger] ns[a], k),
                        field_value(#[trigger] ns[b], k),
                    ) by {
                        if a != w as int && b != w as int {
                            assert(ns[a] == oldseq[a] && ns[b] == oldseq[b]);
                        } else if a == w as int {
                            assert(ns[b] == oldseq[b]);
                            assert(!scalar_eq_model(field_value(oldseq[b], k), field_value(
                                oldseq[w as int],
                                k,
                            )));
                        } else {
                            assert(ns[a] == oldseq[a]);
                            assert(!scalar_eq_model(field_value(oldseq[a], k), field_value(
                                oldseq[w as int],
                                k,
                            )));
                        }
                    }
                }
            },
            None => {
                let ghost oldseq = self.doc_seq();
                self.docs.push(d);
                proof {
                    assert(self.doc_seq() =~= upsert_model(oldseq, k, d@, replace));
                    let ns = self.doc_seq();
                    assert forall|a: int, b: int| 0 <= a < b < ns.len() implies !scalar_eq_model(
                        field_value(#[trigger] ns[a], k),
                        field_value(#[trigger] ns[b], k),
                    ) by {
                        if b == ns.len() - 1 {
                            assert(ns[a] == oldseq[a]);
                            assert(!scalar_eq_model(field_value(oldseq[a], k), id@));
                        } else {
                            assert(ns[a] == oldseq[a] && ns[b] == oldseq[b]);
                        }
                    }
                }
            },
        }
    }

    /// Applies a validated addition batch in order. Establishes the primary
    /// key when the index had none.
    pub fn apply_add(&mut self, batch: &Vec<Document>, method: UpdateMethod, pk: &Vec<u8>)
        requires
            old(self).wf(),
            old(self).pk_model() matches Some(k) ==> k == pk@,
            forall|i: int|
                0 <= i < batch@.len() ==> wf_fields(#[trigger] docs_model(batch@)[i]),
            batch_pk_ok(docs_model(batch@), pk@),
        ensures
            final(self).wf(),
            final(self).pk_model() == Some(pk@),
            final(self).doc_seq() == apply_add_model(
                old(self).doc_seq(),
                pk@,
                docs_model(batch@),
                method is ReplaceDocuments,
            ),
    {
        let replace = match method {
            UpdateMethod::ReplaceDocuments => true,
            UpdateMethod::UpdateDocuments => false,
        };
        match &self.primary_key {
            Some(_) => {},
            None => {
                self.primary_key = Some(clone_bytes(pk));
            },
        }
        let ghost start = self.doc_seq();
        let ghost bm = docs_model(batch@);
        let mut i: usize = 0;
        while i < batch.len()
            invariant
                self.wf(),
                self.pk_model() == Some(pk@),
                bm == docs_model(batch@),
                forall|j: int| 0 <= j < bm.len() ==> wf_fields(#[trigger] bm[j]),
                batch_pk_ok(bm, pk@),
                i <= batch.len(),
                self.doc_seq() == apply_add_model(start, pk@, bm.subrange(0, i as int), replace),
            decreases batch.len() - i,
        {
            let ghost pre = bm.subrange(0, i as int);
            let d = batch[i].clone();
            proof {
                assert(bm[i as int] == batch@[i as int]@);
                assert(wf_fields(bm[i as int]) && pk_ok(bm[i as int], pk@));
            }
            self.upsert(d, replace);
            proof {
                assert(bm.subrange(0, i as int + 1) =~= pre.push(bm[i as int]));
                lemma_apply_add_snoc(start, pk@, pre, bm[i as int], replace);
            }
            i = i + 1;
        }
        proof {
            assert(bm.subrange(0, batch.len() as int) =~= bm);
        }
    }

    /// Removes the documents whose key appears in the id list; unknown ids
    /// remove nothing and are no error.
    pub fn apply_delete(&mut self, ids: &Vec<Value>)
        requires
            old(self).wf(),
        ensures
            final(self).wf(),
            final(self).pk_model() == old(self).pk_model(),
            match old(self).pk_model() {
                Some(k) => final(self).doc_seq() == old(self).doc_seq().filter(
                    kept(k, ids_model(ids@)),
                ),
                None => final(self).doc_seq() == old(self).doc_seq(),
            },
    {
        let pk = match &self.primary_key {
            Some(p) => clone_bytes(p),
            None => {
                return;
            },
        };
        let ghost k = pk@;
        let ghost oldseq = self.doc_seq();
        let ghost sel = kept(k, ids_model(ids@));
        let mut out: Vec<Document> = Vec::new();
        let mut i: usize = 0;
        while i < self.docs.len()
            invariant
                i <= self.docs.len(),
                self.wf(),
                self.pk_model() == Some(k),
                k == pk@,
                oldseq == self.doc_seq(),
                sel == kept(k, ids_model(ids@)),
                docs_model(out@) =~= oldseq.subrange(0, i as int).filter(sel),
                forall|j: int| 0 <= j < out@.len() ==> oldseq.contains(#[trigger] docs_model(out@)[j]),
            decreases self.docs.len() - i,
        {
            let keep = !doc_matches_any(&self.docs[i], &pk, ids);
            let ghost before = docs_model(out@);
            let ghost pre = oldseq.subrange(0, i as int);
            if keep {
                out.push(self.docs[i].clone());
            }
            proof {
                assert(oldseq.subrange(0, i as int + 1) =~= pre.push(oldseq[i as int]));
                pre.lemma_filter_push(oldseq[i as int], sel);
                assert(self.doc_seq()[i as int] == self.docs@[i as int]@);
                assert(sel(oldseq[i as int]) == keep);
                if keep {
                    assert(docs_model(out@) =~= before.push(oldseq[i as int]));
                }
            }
            i = i + 1;
        }
        proof {
            assert(oldseq.subrange(0, oldseq.len() as int) =~= oldseq);
            lemma_filter_docs(oldseq, k, sel);
        }
        self.docs = out;
        proof {
            assert(self.doc_seq() =~= oldseq.filter(sel));
        }
    }

    /// Empties the index and resets its primary key, so that the next
    /// addition may establish or re-infer one.
    pub fn apply_clear(&mut self)
        ensures
            final(self).wf(),
            final(self).pk_model() is None,
            final(self).doc_seq().len() == 0,
    {
        self.docs = Vec::new();
        self.primary_key = None;
    }
}

/// The document's key under `pk` matches one of the ids.
fn doc_matches_any(d: &Document, pk: &Vec<u8>, ids: &Vec<Value>) -> (r: bool)
    ensures
        r == !(kept(pk@, ids_model(ids@))(d@)),
{
    let key = doc_get_field(d, pk);
    proof {
        if !has_field(d@, pk@) {
            lemma_field_value_absent(d@, pk@);
        }
    }
    let mut i: usize = 0;
    while i < ids.len()
        invariant
            i <= ids.len(),
            key is Some <==> has_field(d@, pk@),
            key matches Some(v) ==> v@ == field_value(d@, pk@),
            key is None ==> field_value(d@, pk@) == ValModel::Null,
            forall|j: int|
                0 <= j < i as int ==> !scalar_eq_model(
                    field_value(d@, pk@),
                    #[trigger] ids_model(ids@)[j],
                ),
        decreases ids.len() - i,
    {
        let hit = match key {
            Some(v) => v.scalar_eq(&ids[i]),
            None => false,
        };
        if hit {
            proof {
                assert(scalar_eq_model(field_value(d@, pk@), ids_model(ids@)[i as int]));
            }
            return true;
        }
        i = i + 1;
    }
    false
}

/// Pagination law: adjacent pages concatenate. With `lemma_page_exhausts`,
/// walking pages `(0, n)`, `(n, n)`, ... until an empty one yields every
/// committed document exactly once, in order.
pub proof fn lemma_page_concat(docs: Seq<Seq<FieldModel>>, offset: int, n: int, m: int)
    requires
        offset >= 0,
        n >= 0,
        m >= 0,
    ensures
        page(docs, offset, n + m) == page(docs, offset, n) + page(docs, offset + n, m),
{
    assert(page(docs, offset, n + m) =~= page(docs, offset, n) + page(docs, offset + n, m));
}

/// Pagination law: a page that starts at the beginning and asks for every
/// document returns all of them; a page beyond the end, or with no limit,
/// is empty.
pub proof fn lemma_page_exhausts(docs: Seq<Seq<FieldModel>>, offset: int, n: int)
    requires
        offset >= 0,
        n >= 0,
    ensures
        offset == 0 && n >= docs.len() ==> page(docs, offset, n) == docs,
        offset >= docs.len() ==> page(docs, offset, n) == Seq::<Seq<FieldModel>>::empty(),
        n == 0 ==> page(docs, offset, n) == Seq::<Seq<FieldModel>>::empty(),
{
    if offset == 0 && n >= docs.len() {
        assert(page(docs, offset, n) =~= docs);
    }
    if offset >= docs.len() || n == 0 {
        assert(page(docs, offset, n) =~= Seq::<Seq<FieldModel>>::empty());
    }
}

/// Deletion law: an id list that matches no committed document removes
/// nothing; the delete task still succeeds.
pub proof fn lemma_delete_unknown(docs: Seq<Seq<FieldModel>>, pk: Seq<u8>, ids: Seq<ValModel>)
    requires
        forall|i: int| 0 <= i < docs.len() ==> kept(pk, ids)(#[trigger] docs[i]),
    ensures
        docs.filter(kept(pk, ids)) == docs,
    decreases docs.len(),
{
    if docs.len() > 0 {
        let dl = docs.drop_last();
        assert(forall|i: int| 0 <= i < dl.len() ==> dl[i] == docs[i]);
        lemma_delete_unknown(dl, pk, ids);
        dl.lemma_filter_push(docs.last(), kept(pk, ids));
        assert(docs =~= dl.push(docs.last()));
        assert(docs.filter(kept(pk, ids)) =~= docs);
    }
}


/// The position of the last batch document whose key under `pk` equals `k`,
/// or -1 when none carries it.
pub open spec fn last_with_key(batch: Seq<Seq<FieldModel>>, pk: Seq<u8>, k: ValModel) -> int
    decreases batch.len(),
{
    if batch.len() == 0 {
        -1
    } else {
        let r = last_with_key(batch.drop_first(), pk, k);
        if r >= 0 {
            r + 1
        } else if scalar_eq_model(field_value(batch[0], pk), k) {
            0
        } else {
            -1
        }
    }
}

/// Bounds and meaning of `last_with_key`.
pub proof fn lemma_last_with_key_bounds(batch: Seq<Seq<FieldModel>>, pk: Seq<u8>, k: ValModel)
    ensures
        -1 <= last_with_key(batch, pk, k) < batch.len(),
        last_with_key(batch, pk, k) >= 0 ==> scalar_eq_model(
            field_value(batch[last_with_key(batch, pk, k)], pk),
            k,
        ),
    decreases batch.len(),
{
    if batch.len() > 0 {
        let rest = batch.drop_first();
        lemma_last_with_key_bounds(rest, pk, k);
        assert(forall|j: int| 0 <= j < rest.len() ==> #[trigger] rest[j] == batch[j + 1]);
    }
}

/// The first match is at `w` exactly.
proof fn lemma_key_idx_pinpoint(docs: Seq<Seq<FieldModel>>, pk: Seq<u8>, idv: ValModel, w: int)
    requires
        0 <= w < docs.len(),
        scalar_eq_model(field_value(docs[w], pk), idv),
        forall|j: int| 0 <= j < w ==> !scalar_eq_model(field_value(#[trigger] docs[j], pk), idv),
    ensures
        key_idx(docs, pk, idv) == w,
{
    lemma_key_idx(docs, pk, idv);
    let ki = key_idx(docs, pk, idv);
    if ki == -1 {
        assert(!scalar_eq_model(field_value(docs[w], pk), idv));
    } else if ki < w {
        assert(!scalar_eq_model(field_value(docs[ki], pk), idv));
    } else if ki > w {
        assert(!scalar_eq_model(field_value(docs[w], pk), idv));
    }
}

/// No document matches, so there is no first match.
proof fn lemma_key_idx_none(docs: Seq<Seq<FieldModel>>, pk: Seq<u8>, idv: ValModel)
    requires
        forall|j: int|
            0 <= j < docs.len() ==> !scalar_eq_model(field_value(#[trigger] docs[j], pk), idv),
    ensures
        key_idx(docs, pk, idv) == -1,
{
    lemma_key_idx(docs, pk, idv);
    let ki = key_idx(docs, pk, idv);
    if ki >= 0 {
        assert(!scalar_eq_model(field_value(docs[ki], pk), idv));
    }
}

/// Replace-batch law: after a whole Replace batch is applied, every key
/// value occurring in the batch maps to the last batch document that carries
/// it, and every other key maps to exactly the committed document it mapped
/// to before, at the same position, present exactly if it was present.
/// Applied batch after batch in task-id order, this also says that for a key
/// carried by two batches the later batch's document is the committed one.
pub proof fn lemma_replace_batch_lookup(
    docs: Seq<Seq<FieldModel>>,
    pk: Seq<u8>,
    batch: Seq<Seq<FieldModel>>,
    k: ValModel,
)
    requires
        batch_pk_ok(batch, pk),
    ensures
        ({
            let after = apply_add_model(docs, pk, batch, true);
            let lw = last_with_key(batch, pk, k);
            &&& lw >= 0 ==> key_idx(after, pk, k) >= 0 && after[key_idx(after, pk, k)]
                == batch[lw]
            &&& lw == -1 ==> key_idx(after, pk, k) == key_idx(docs, pk, k) && (key_idx(
                docs,
                pk,
                k,
            ) >= 0 ==> after[key_idx(docs, pk, k)] == docs[key_idx(docs, pk, k)])
        }),
    decreases batch.len(),
{
    let after = apply_add_model(docs, pk, batch, true);
    let lw = last_with_key(batch, pk, k);
    lemma_last_with_key_bounds(batch, pk, k);
    if batch.len() > 0 {
        let b0 = batch[0];
        let rest = batch.drop_first();
        let up = upsert_model(docs, pk, b0, true);
        assert(forall|j: int| 0 <= j < rest.len() ==> #[trigger] rest[j] == batch[j + 1]);
        assert forall|j: int| 0 <= j < rest.len() implies pk_ok(#[trigger] rest[j], pk) by {
            assert(pk_ok(batch[j + 1], pk));
        }
        lemma_replace_batch_lookup(up, pk, rest, k);
        lemma_last_with_key_bounds(rest, pk, k);
        assert(pk_ok(batch[0], pk));
        let kb = field_value(b0, pk);
        let w0 = key_idx(docs, pk, kb);
        lemma_key_idx(docs, pk, kb);
        lemma_key_idx(docs, pk, k);
        let rw = last_with_key(rest, pk, k);
        if scalar_eq_model(kb, k) {
            lemma_scalar_eq_is_eq(kb, k);
            if w0 == -1 {
                assert(up == docs.push(b0));
                assert(up[docs.len() as int] == b0);
                assert(scalar_eq_model(field_value(up[docs.len() as int], pk), k));
                assert forall|j: int| 0 <= j < docs.len() implies !scalar_eq_model(
                    field_value(#[trigger] up[j], pk),
                    k,
                ) by {
                    assert(up[j] == docs[j]);
                }
                lemma_key_idx_pinpoint(up, pk, k, docs.len() as int);
                assert(up[key_idx(up, pk, k)] == b0);
            } else {
                assert(up == docs.update(w0, b0));
                assert(up[w0] == b0);
                assert(scalar_eq_model(field_value(up[w0], pk), k));
                assert forall|j: int| 0 <= j < w0 implies !scalar_eq_model(
                    field_value(#[trigger] up[j], pk),
                    k,
                ) by {
                    assert(up[j] == docs[j]);
                }
                lemma_key_idx_pinpoint(up, pk, k, w0);
                assert(up[key_idx(up, pk, k)] == b0);
            }
            if rw >= 0 {
                assert(lw == rw + 1);
                assert(batch[lw] == rest[rw]);
            } else {
                assert(lw == 0);
                assert(key_idx(after, pk, k) == key_idx(up, pk, k));
                assert(after[key_idx(up, pk, k)] == up[key_idx(up, pk, k)]);
            }
        } else {
            let wk = key_idx(docs, pk, k);
            if w0 == -1 {
                assert(up == docs.push(b0));
                assert(!scalar_eq_model(field_value(up[docs.len() as int], pk), k));
                if wk == -1 {
                    assert forall|j: int| 0 <= j < up.len() implies !scalar_eq_model(
                        field_value(#[trigger] up[j], pk),
                        k,
                    ) by {
                        if j < docs.len() {
                            assert(up[j] == docs[j]);
                        }
                    }
                    lemma_key_idx_none(up, pk, k);
                } else {
                    assert(up[wk] == docs[wk]);
                    assert forall|j: int| 0 <= j < wk implies !scalar_eq_model(
                        field_value(#[trigger] up[j], pk),
                        k,
                    ) by {
                        assert(up[j] == docs[j]);
                    }
                    lemma_key_idx_pinpoint(up, pk, k, wk);
                }
            } else {
                assert(up == docs.update(w0, b0));
                lemma_scalar_eq_is_eq(field_value(docs[w0], pk), kb);
                assert(!scalar_eq_model(field_value(up[w0], pk), k));
                if wk == -1 {
                    assert forall|j: int| 0 <= j < up.len() implies !scalar_eq_model(
                        field_value(#[trigger] up[j], pk),
                        k,
                    ) by {
                        if j != w0 {
                            assert(up[j] == docs[j]);
                        }
                    }
                    lemma_key_idx_none(up, pk, k);
                } else {
                    assert(wk != w0);
                    assert(up[wk] == docs[wk]);
                    assert forall|j: int| 0 <= j < wk implies !scalar_eq_model(
                        field_value(#[trigger] up[j], pk),
                        k,
                    ) by {
                        if j != w0 {
                            assert(up[j] == docs[j]);
                        }
                    }
                    lemma_key_idx_pinpoint(up, pk, k, wk);
                }
            }
            if rw >= 0 {
                assert(lw == rw + 1);
                assert(batch[lw] == rest[rw]);
            } else {
                assert(lw == -1);
                assert(key_idx(after, pk, k) == key_idx(up, pk, k));
                assert(key_idx(up, pk, k) == wk);
                if wk >= 0 {
                    assert(after[wk] == up[wk]);
                }
            }
        }
    }
}

/// Submission-order law for overlapping keys: with two Replace batches
/// applied in task-id order, a key carried by the second batch ends up
/// mapped to the second batch's (last) document for it, whatever the first
/// batch did.
pub proof fn lemma_later_batch_wins(
    docs: Seq<Seq<FieldModel>>,
    pk: Seq<u8>,
    first_batch: Seq<Seq<FieldModel>>,
    second_batch: Seq<Seq<FieldModel>>,
    k: ValModel,
)
    requires
        batch_pk_ok(first_batch, pk),
        batch_pk_ok(second_batch, pk),
        last_with_key(second_batch, pk, k) >= 0,
    ensures
        ({
            let mid = apply_add_model(docs, pk, first_batch, true);
            let after = apply_add_model(mid, pk, second_batch, true);
            &&& key_idx(after, pk, k) >= 0
            &&& after[key_idx(after, pk, k)] == second_batch[last_with_key(second_batch, pk, k)]
        }),
{
    let mid = apply_add_model(docs, pk, first_batch, true);
    lemma_replace_batch_lookup(mid, pk, second_batch, k);
}

} // verus!
