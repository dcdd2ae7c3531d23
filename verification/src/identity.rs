use vstd::prelude::*;

use crate::doc::{doc_get_field, docs_model};
use crate::error::TaskError;
use crate::value::{
    clone_bytes, field_value, has_field, is_scalar, scalar_eq_model, Document, FieldModel,
};

verus! {

/// ASCII lower-casing of one byte.
pub open spec fn lower(b: u8) -> u8 {
    if 65 <= b <= 90 {
        (b + 32) as u8
    } else {
        b
    }
}

/// The name contains "id", case-insensitively.
pub open spec fn name_has_id(name: Seq<u8>) -> bool {
    exists|i: int|
        0 <= i && i + 2 <= name.len() && lower(#[trigger] name[i]) == 105 && lower(
            name[i + 1],
        ) == 100
}

/// The document can be identified through the field `pk`: the field is
/// present and holds a non-null scalar.
pub open spec fn pk_ok(doc: Seq<FieldModel>, pk: Seq<u8>) -> bool {
    has_field(doc, pk) && is_scalar(field_value(doc, pk))
}

/// Every document of the batch can be identified through `pk`.
pub open spec fn batch_pk_ok(batch: Seq<Seq<FieldModel>>, pk: Seq<u8>) -> bool {
    forall|i: int| 0 <= i < batch.len() ==> pk_ok(#[trigger] batch[i], pk)
}

/// The key values under `pk` are pairwise distinct across the batch.
pub open spec fn batch_keys_distinct(batch: Seq<Seq<FieldModel>>, pk: Seq<u8>) -> bool {
    forall|i: int, j: int|
        0 <= i < j < batch.len() ==> !scalar_eq_model(
            field_value(#[trigger] batch[i], pk),
            field_value(#[trigger] batch[j], pk),
        )
}

/// A field name of the first document qualifies as an inferred primary key:
/// id-like name, present in every document with a scalar value, and with
/// pairwise distinct values across the batch.
pub open spec fn is_candidate(batch: Seq<Seq<FieldModel>>, name: Seq<u8>) -> bool {
    &&& name_has_id(name)
    &&& batch_pk_ok(batch, name)
    &&& batch_keys_distinct(batch, name)
}

/// Holds of the fields of the first document that qualify.
pub open spec fn candidate_sel(batch: Seq<Seq<FieldModel>>) -> spec_fn(FieldModel) -> bool {
    |f: FieldModel| is_candidate(batch, f.name)
}

/// The qualifying fields of the first document, in field order.
pub open spec fn candidates(batch: Seq<Seq<FieldModel>>) -> Seq<FieldModel> {
    batch[0].filter(candidate_sel(batch))
}

/// The inferred primary key: the name of the single qualifying field of the
/// first document, if exactly one qualifies.
pub open spec fn inferred_pk(batch: Seq<Seq<FieldModel>>) -> Option<Seq<u8>> {
    if batch.len() > 0 && candidates(batch).len() == 1 {
        Some(candidates(batch)[0].name)
    } else {
        None
    }
}

/// The name contains "id", case-insensitively.
pub fn name_contains_id(name: &Vec<u8>) -> (r: bool)
    ensures
        r == name_has_id(name@),
{
    if name.len() < 2 {
        return false;
    }
    let mut i: usize = 0;
    while i <= name.len() - 2
        invariant
            name.len() >= 2,
            i <= name.len() - 1,
            forall|j: int| 0 <= j < i as int ==> !(lower(#[trigger] name@[j]) == 105 && lower(name@[j + 1]) == 100),
        decreases name.len() - i,
    {
        let a = name[i];
        let b = name[i + 1];
        let la = if 65 <= a && a <= 90 { a + 32 } else { a };
        let lb = if 65 <= b && b <= 90 { b + 32 } else { b };
        if la == 105 && lb == 100 {
            return true;
        }
        i = i + 1;
    }
    false
}

/// Every document of the batch holds a scalar under `pk`; on failure, the
/// index of the first document that does not.
pub fn validate_batch(batch: &Vec<Document>, pk: &Vec<u8>) -> (r: Result<(), usize>)
    ensures
        r is Ok <==> batch_pk_ok(docs_model(batch@), pk@),
        r matches Err(i) ==> i < batch@.len() && !pk_ok(docs_model(batch@)[i as int], pk@)
            && forall|j: int| 0 <= j < i as int ==> pk_ok(docs_model(batch@)[j], pk@),
{
    let mut i: usize = 0;
    while i < batch.len()
        invariant
            i <= batch.len(),
            forall|j: int| 0 <= j < i as int ==> pk_ok(docs_model(batch@)[j], pk@),
        decreases batch.len() - i,
    {
        let ok = match doc_get_field(&batch[i], pk) {
            Some(v) => v.is_scalar_value(),
            None => false,
        };
        if !ok {
            proof {
                assert(!pk_ok(docs_model(batch@)[i as int], pk@));
                assert(!batch_pk_ok(docs_model(batch@), pk@));
            }
            return Err(i);
        }
        i = i + 1;
    }
    Ok(())
}

/// The key values under `pk` are pairwise distinct across the batch.
pub fn batch_distinct(batch: &Vec<Document>, pk: &Vec<u8>) -> (r: bool)
    ensures
        r == batch_keys_distinct(docs_model(batch@), pk@),
{
    let mut i: usize = 0;
    while i < batch.len()
        invariant
            i <= batch.len(),
            forall|a: int, b: int|
                0 <= a < b < batch@.len() && a < i as int ==> !scalar_eq_model(
                    field_value(#[trigger] docs_model(batch@)[a], pk@),
                    field_value(#[trigger] docs_model(batch@)[b], pk@),
                ),
        decreases batch.len() - i,
    {
        let va = doc_get_field(&batch[i], pk);
        let mut j: usize = i + 1;
        while j < batch.len()
            invariant
                i < j,
                i < batch.len(),
                j <= batch.len(),
                va is Some <==> has_field(docs_model(batch@)[i as int], pk@),
                va matches Some(v) ==> v@ == field_value(docs_model(batch@)[i as int], pk@),
                forall|b: int|
                    (i as int) < b && b < j as int ==> !scalar_eq_model(
                        field_value(docs_model(batch@)[i as int], pk@),
                        field_value(#[trigger] docs_model(batch@)[b], pk@),
                    ),
            decreases batch.len() - j,
        {
            let vb = doc_get_field(&batch[j], pk);
            let clash = match (&va, &vb) {
                (Some(x), Some(y)) => x.scalar_eq(y),
                _ => false,
            };
            proof {
                if va is None {
                    crate::value::lemma_field_value_absent(docs_model(batch@)[i as int], pk@);
                }
                if vb is None {
                    crate::value::lemma_field_value_absent(docs_model(batch@)[j as int], pk@);
                }
            }
            if clash {
                proof {
                    assert(scalar_eq_model(
                        field_value(docs_model(batch@)[i as int], pk@),
                        field_value(docs_model(batch@)[j as int], pk@),
                    ));
                    assert(!batch_keys_distinct(docs_model(batch@), pk@));
                }
                return false;
            }
            j = j + 1;
        }
        i = i + 1;
    }
    true
}

/// Checks one field name of the first document against `is_candidate`.
fn check_candidate(batch: &Vec<Document>, name: &Vec<u8>) -> (r: bool)
    requires
        batch@.len() > 0,
    ensures
        r == is_candidate(docs_model(batch@), name@),
{
    if !name_contains_id(name) {
        return false;
    }
    match validate_batch(batch, name) {
        Ok(()) => batch_distinct(batch, name),
        Err(_) => false,
    }
}

/// Scans the first document of the batch for the primary key to adopt:
/// the single field whose name is id-like and whose values identify every
/// document of the batch. Returns the inferred name, or nothing when zero or
/// several fields qualify.
pub fn infer_primary_key(batch: &Vec<Document>) -> (r: Option<Vec<u8>>)
    requires
        batch@.len() > 0,
    ensures
        r matches Some(k) ==> inferred_pk(docs_model(batch@)) == Some(k@),
        r is None ==> inferred_pk(docs_model(batch@)) is None,
{
    let ghost bm = docs_model(batch@);
    let ghost sel = candidate_sel(bm);
    let first = &batch[0];
    let mut found: Option<Vec<u8>> = None;
    let mut count: usize = 0;
    let mut i: usize = 0;
    while i < first.fields.len()
        invariant
            batch@.len() > 0,
            bm == docs_model(batch@),
            sel == candidate_sel(bm),
            *first == batch@[0],
            i <= first.fields.len(),
            count as int == bm[0].subrange(0, i as int).filter(sel).len(),
            count <= i,
            count > 0 ==> (found matches Some(k) && k@ == bm[0].subrange(0, i as int).filter(
                sel,
            )[0].name),
            count == 0 ==> found is None,
        decreases first.fields.len() - i,
    {
        let ghost pref = bm[0].subrange(0, i as int);
        let ghost prefx = bm[0].subrange(0, i as int + 1);
        let yes = check_candidate(batch, &first.fields[i].name);
        proof {
            assert(bm[0] =~= first@);
            assert(prefx =~= pref.push(bm[0][i as int]));
            pref.lemma_filter_push(bm[0][i as int], sel);
            assert(bm[0][i as int].name == first.fields@[i as int].name@);
            assert(sel(bm[0][i as int]) == yes);
        }
        if yes {
            if count == 0 {
                found = Some(clone_bytes(&first.fields[i].name));
            }
            count = count + 1;
            proof {
                if count == 1 {
                    assert(pref.filter(sel).len() == 0);
                    assert(prefx.filter(sel) =~= pref.filter(sel).push(bm[0][i as int]));
                    assert(prefx.filter(sel)[0] == bm[0][i as int]);
                } else {
                    assert(prefx.filter(sel)[0] == pref.filter(sel)[0]);
                }
            }
        }
        i = i + 1;
    }
    proof {
        assert(bm[0].subrange(0, first.fields.len() as int) =~= bm[0]);
    }
    if count == 1 {
        proof {
            assert(candidates(bm).len() == 1);
        }
        found
    } else {
        proof {
            assert(inferred_pk(bm) is None);
        }
        None
    }
}

/// The model of an optional key name.
pub open spec fn pk_opt_model(o: Option<Vec<u8>>) -> Option<Seq<u8>> {
    match o {
        Some(k) => Some(k@),
        None => None,
    }
}

/// The error names the first document that cannot be identified through `k`.
pub open spec fn is_first_missing(batch: Seq<Seq<FieldModel>>, k: Seq<u8>, e: TaskError) -> bool {
    &&& e matches TaskError::MissingPrimaryKey { doc_index }
    &&& 0 <= doc_index < batch.len()
    &&& !pk_ok(batch[e->MissingPrimaryKey_doc_index as int], k)
    &&& forall|j: int|
        0 <= j < e->MissingPrimaryKey_doc_index as int ==> pk_ok(#[trigger] batch[j], k)
}

/// What primary key resolution returns for a non-empty batch: the
/// established key when the index has one, else the explicitly supplied key,
/// else the inferred key; in the first two cases the key must identify every
/// document, in the last a single candidate must exist.
pub open spec fn resolution_ok(
    est: Option<Seq<u8>>,
    exp: Option<Seq<u8>>,
    batch: Seq<Seq<FieldModel>>,
    r: Result<Seq<u8>, TaskError>,
) -> bool {
    match r {
        Ok(k) => {
            &&& batch_pk_ok(batch, k)
            &&& match est {
                Some(e) => k == e,
                None => match exp {
                    Some(x) => k == x,
                    None => inferred_pk(batch) == Some(k),
                },
            }
        },
        Err(e) => match est {
            Some(es) => is_first_missing(batch, es, e),
            None => match exp {
                Some(x) => is_first_missing(batch, x, e),
                None => e == TaskError::PrimaryKeyInferenceFailed && inferred_pk(batch) is None,
            },
        },
    }
}

/// Resolves the primary key for one addition batch: an established key wins;
/// otherwise an explicitly supplied key is adopted; otherwise the key is
/// inferred from the batch. The returned key is validated against every
/// document of the batch.
pub fn resolve_primary_key(
    established: Option<&Vec<u8>>,
    explicit: Option<&Vec<u8>>,
    batch: &Vec<Document>,
) -> (r: Result<Vec<u8>, TaskError>)
    requires
        batch@.len() > 0,
    ensures
        resolution_ok(
            match established {
                Some(e) => Some(e@),
                None => None,
            },
            match explicit {
                Some(x) => Some(x@),
                None => None,
            },
            docs_model(batch@),
            match r {
                Ok(k) => Ok(k@),
                Err(e) => Err(e),
            },
        ),
{
    let chosen: Option<&Vec<u8>> = match established {
        Some(k) => Some(k),
        None => match explicit {
            Some(k) => Some(k),
            None => None,
        },
    };
    match chosen {
        Some(k) => {
            match validate_batch(batch, k) {
                Ok(()) => Ok(clone_bytes(k)),
                Err(i) => Err(TaskError::MissingPrimaryKey { doc_index: i }),
            }
        },
        None => {
            match infer_primary_key(batch) {
                Some(k) => {
                    proof {
                        let bm = docs_model(batch@);
                        bm[0].lemma_filter_pred(candidate_sel(bm), 0);
                    }
                    Ok(k)
                },
                None => Err(TaskError::PrimaryKeyInferenceFailed),
            }
        },
    }
}

} // verus!
