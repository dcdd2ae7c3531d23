use vstd::prelude::*;

use crate::value::{
    bytes_eq, clone_bytes, field_value, has_field, lemma_field_value_at, wf_fields, Document, Field,
    FieldModel, ValModel, Value,
};

verus! {

/// Holds of fields whose name is absent from `base`.
pub open spec fn absent_in(base: Seq<FieldModel>) -> spec_fn(FieldModel) -> bool {
    |f: FieldModel| !has_field(base, f.name)
}

/// The field of `base` after a merge against the incoming fields `inc`:
/// an incoming non-null value overwrites, anything else leaves the field.
pub open spec fn override_field(inc: Seq<FieldModel>, f: FieldModel) -> FieldModel {
    if has_field(inc, f.name) && field_value(inc, f.name) != ValModel::Null {
        FieldModel { name: f.name, value: field_value(inc, f.name) }
    } else {
        f
    }
}

/// Field-level union of a committed document and an incoming one: fields of
/// the committed document come first in their original order, overwritten
/// where the incoming document has a non-null value for them; incoming fields
/// with fresh names follow in the incoming order.
pub open spec fn merged(base: Seq<FieldModel>, inc: Seq<FieldModel>) -> Seq<FieldModel> {
    Seq::new(base.len(), |i: int| override_field(inc, base[i])) + inc.filter(absent_in(base))
}

/// Holds of fields whose name is among the requested attributes.
pub open spec fn retained(attrs: Seq<Seq<u8>>) -> spec_fn(FieldModel) -> bool {
    |f: FieldModel| attrs.contains(f.name)
}

/// Projection: exactly the fields whose names are requested, in the
/// document's original field order.
pub open spec fn projected(fs: Seq<FieldModel>, attrs: Seq<Seq<u8>>) -> Seq<FieldModel> {
    fs.filter(retained(attrs))
}

/// The models of a sequence of documents, element-wise.
pub open spec fn docs_model(s: Seq<Document>) -> Seq<Seq<FieldModel>> {
    Seq::new(s.len(), |i: int| s[i]@)
}

/// The models of a list of field names.
pub open spec fn names_model(s: Seq<Vec<u8>>) -> Seq<Seq<u8>> {
    Seq::new(s.len(), |i: int| s[i]@)
}

/// Looks a field up by name; the first (in a well-formed document: the only)
/// field with that name is returned.
pub fn doc_get_field<'a>(doc: &'a Document, name: &Vec<u8>) -> (r: Option<&'a Value>)
    ensures
        r is Some <==> has_field(doc@, name@),
        r matches Some(v) ==> v@ == field_value(doc@, name@),
{
    let mut i: usize = 0;
    while i < doc.fields.len()
        invariant
            i <= doc.fields.len(),
            forall|j: int| 0 <= j < i as int ==> doc@[j].name != name@,
        decreases doc.fields.len() - i,
    {
        if bytes_eq(&doc.fields[i].name, name) {
            proof {
                lemma_field_value_at(doc@, name@, i as int);
            }
            return Some(&doc.fields[i].value);
        }
        i = i + 1;
    }
    proof {
        assert(!has_field(doc@, name@));
    }
    None
}

/// A requested attribute list contains the name.
pub fn names_contain(names: &Vec<Vec<u8>>, name: &Vec<u8>) -> (r: bool)
    ensures
        r == names_model(names@).contains(name@),
{
    let mut i: usize = 0;
    while i < names.len()
        invariant
            i <= names.len(),
            forall|j: int| 0 <= j < i as int ==> names_model(names@)[j] != name@,
        decreases names.len() - i,
    {
        if bytes_eq(&names[i], name) {
            assert(names_model(names@)[i as int] == name@);
            return true;
        }
        i = i + 1;
    }
    proof {
        assert(forall|j: int| 0 <= j < names_model(names@).len()
            ==> names_model(names@)[j] != name@);
    }
    false
}

/// Filtering a well-formed field sequence keeps it well-formed, keeps each
/// retained field's value, and introduces no field name.
pub proof fn lemma_filter_wf(s: Seq<FieldModel>, p: spec_fn(FieldModel) -> bool)
    requires
        wf_fields(s),
    ensures
        wf_fields(s.filter(p)),
        forall|n: Seq<u8>| #[trigger] has_field(s.filter(p), n) ==> has_field(s, n)
            && field_value(s.filter(p), n) == field_value(s, n),
        forall|n: Seq<u8>|
            has_field(s, n) && p(s[the_field_index(s, n)]) ==> #[trigger] has_field(
                s.filter(p),
                n,
            ),
    decreases s.len(),
{
    let f = s.filter(p);
    if s.len() == 0 {
        assert(f =~= s);
    } else {
        let dl = s.drop_last();
        let last = s.last();
        let fdl = dl.filter(p);
        assert(forall|i: int| 0 <= i < dl.len() ==> dl[i] == s[i]);
        lemma_filter_wf(dl, p);
        dl.lemma_filter_push(last, p);
        assert(s =~= dl.push(last));
        if p(last) {
            assert(f == fdl.push(last));
            if has_field(fdl, last.name) {
                let w = choose|w: int| 0 <= w < fdl.len() && fdl[w].name == last.name;
                let v = the_field_index(dl, last.name);
                assert(s[v].name == s[s.len() - 1].name);
                assert(false);
            }
            assert(forall|i: int| 0 <= i < fdl.len() ==> f[i] == fdl[i]);
            assert forall|i: int, j: int| 0 <= i < j < f.len() implies f[i].name != f[j].name by {
                if j == f.len() - 1 {
                    if f[i].name == last.name {
                        assert(has_field(fdl, last.name));
                    }
                }
            }
        } else {
            assert(f == fdl);
        }
        assert forall|n: Seq<u8>| #[trigger] has_field(f, n) implies has_field(s, n)
            && field_value(f, n) == field_value(s, n) by {
            if p(last) && n == last.name {
                lemma_field_value_at_wf(f, n, f.len() - 1);
                lemma_field_value_at_wf(s, n, s.len() - 1);
            } else {
                let w = choose|w: int| 0 <= w < f.len() && f[w].name == n;
                assert(f[w] == fdl[w]);
                assert(has_field(fdl, n));
                let v = the_field_index(fdl, n);
                lemma_field_value_at_wf(fdl, n, v);
                lemma_field_value_at_wf(f, n, v);
                let u = the_field_index(dl, n);
                assert(dl[u] == s[u]);
                lemma_field_value_at_wf(s, n, u);
                lemma_field_value_at_wf(dl, n, u);
            }
        }
        assert forall|n: Seq<u8>|
            has_field(s, n) && p(s[the_field_index(s, n)]) implies #[trigger] has_field(
            f,
            n,
        ) by {
            let w = the_field_index(s, n);
            if w == s.len() - 1 {
                assert(f[f.len() - 1].name == n);
            } else {
                assert(dl[w] == s[w]);
                lemma_field_value_at_wf(dl, n, w);
                assert(has_field(fdl, n));
                let v = choose|v: int| 0 <= v < fdl.len() && fdl[v].name == n;
                assert(f[v].name == n);
            }
        }
    }
}

/// The unique index of the field named `n` in a well-formed field sequence.
pub open spec fn the_field_index(s: Seq<FieldModel>, n: Seq<u8>) -> int {
    choose|i: int| 0 <= i < s.len() && s[i].name == n
}

/// In a well-formed field sequence, any matching index gives `field_value`.
pub proof fn lemma_field_value_at_wf(s: Seq<FieldModel>, n: Seq<u8>, k: int)
    requires
        wf_fields(s),
        0 <= k < s.len(),
        s[k].name == n,
    ensures
        has_field(s, n),
        field_value(s, n) == s[k].value,
        the_field_index(s, n) == k,
{
    assert(forall|j: int| 0 <= j < k ==> s[j].name != n);
    lemma_field_value_at(s, n, k);
    let w = the_field_index(s, n);
    assert(0 <= w < s.len() && s[w].name == n);
    if w != k {
        assert(false);
    }
}

/// What a merge holds under each field name: incoming non-null values win,
/// anything else keeps the committed value; no field name appears or
/// disappears beyond the union, and well-formedness is preserved.
pub proof fn lemma_merged_lookup(base: Seq<FieldModel>, inc: Seq<FieldModel>)
    requires
        wf_fields(base),
        wf_fields(inc),
    ensures
        wf_fields(merged(base, inc)),
        forall|n: Seq<u8>| #[trigger] has_field(merged(base, inc), n) <==> (has_field(base, n)
            || has_field(inc, n)),
        forall|n: Seq<u8>|
            has_field(base, n) && has_field(inc, n) && field_value(inc, n) != ValModel::Null
                ==> #[trigger] field_value(merged(base, inc), n) == field_value(inc, n),
        forall|n: Seq<u8>|
            has_field(base, n) && !(has_field(inc, n) && field_value(inc, n) != ValModel::Null)
                ==> #[trigger] field_value(merged(base, inc), n) == field_value(base, n),
        forall|n: Seq<u8>|
            !has_field(base, n) && has_field(inc, n) ==> #[trigger] field_value(
                merged(base, inc),
                n,
            ) == field_value(inc, n),
{
    broadcast use vstd::seq_lib::group_filter_ensures;

    let bpart = Seq::new(base.len(), |i: int| override_field(inc, base[i]));
    let fpart = inc.filter(absent_in(base));
    let m = merged(base, inc);
    assert(forall|i: int| 0 <= i < base.len() ==> (#[trigger] bpart[i]).name == base[i].name);
    lemma_filter_wf(inc, absent_in(base));
    assert(wf_fields(bpart));
    assert forall|i: int, j: int| 0 <= i < j < m.len() implies m[i].name != m[j].name by {
        if i < bpart.len() && j >= bpart.len() {
            assert(m[j] == fpart[j - bpart.len()]);
            assert(fpart.contains(fpart[j - bpart.len()]));
            assert(absent_in(base)(fpart[j - bpart.len()]));
            if m[i].name == m[j].name {
                assert(has_field(base, base[i].name));
            }
        } else if i >= bpart.len() {
            assert(m[i] == fpart[i - bpart.len()] && m[j] == fpart[j - bpart.len()]);
        }
    }
    assert forall|n: Seq<u8>| #[trigger] has_field(m, n) implies (has_field(base, n) || has_field(
        inc,
        n,
    )) by {
        let w = choose|w: int| 0 <= w < m.len() && m[w].name == n;
        if w < bpart.len() {
            assert(base[w].name == n);
        } else {
            assert(m[w] == fpart[w - bpart.len()]);
            assert(has_field(fpart, n));
        }
    }
    assert forall|n: Seq<u8>| has_field(base, n) implies has_field(m, n) && field_value(m, n)
        == override_field(inc, base[the_field_index(base, n)]).value by {
        let w = the_field_index(base, n);
        assert(0 <= w < base.len() && base[w].name == n);
        assert(m[w] == bpart[w]);
        lemma_field_value_at_wf(m, n, w);
    }
    assert forall|n: Seq<u8>| !has_field(base, n) && has_field(inc, n) implies has_field(m, n)
        && #[trigger] field_value(m, n) == field_value(inc, n) by {
        let w = the_field_index(inc, n);
        lemma_field_value_at_wf(inc, n, w);
        assert(absent_in(base)(inc[w]));
        assert(has_field(fpart, n));
        let v = choose|v: int| 0 <= v < fpart.len() && fpart[v].name == n;
        assert(m[bpart.len() + v] == fpart[v]);
        lemma_field_value_at_wf(m, n, bpart.len() + v);
        lemma_field_value_at_wf(fpart, n, v);
        assert(field_value(fpart, n) == field_value(inc, n));
    }
    assert forall|n: Seq<u8>|
        has_field(base, n) && has_field(inc, n) && field_value(inc, n)
            != ValModel::Null implies #[trigger] field_value(m, n) == field_value(inc, n) by {
        let w = the_field_index(base, n);
        assert(field_value(m, n) == override_field(inc, base[w]).value);
    }
    assert forall|n: Seq<u8>|
        has_field(base, n) && !(has_field(inc, n) && field_value(inc, n)
            != ValModel::Null) implies #[trigger] field_value(m, n) == field_value(base, n) by {
        let w = the_field_index(base, n);
        lemma_field_value_at_wf(base, n, w);
        assert(field_value(m, n) == override_field(inc, base[w]).value);
    }
}

/// Merges an incoming document into a committed one (`merged` on the models).
pub fn merge_documents(base: &Document, inc: &Document) -> (r: Document)
    ensures
        r@ == merged(base@, inc@),
{
    let mut out: Vec<Field> = Vec::new();
    let mut i: usize = 0;
    while i < base.fields.len()
        invariant
            i <= base.fields.len(),
            out@.len() == i as int,
            forall|j: int| 0 <= j < i as int ==> out@[j]@ == override_field(inc@, base@[j]),
        decreases base.fields.len() - i,
    {
        let name = clone_bytes(&base.fields[i].name);
        let over = doc_get_field(inc, &name);
        match over {
            Some(v) => {
                match v {
                    Value::Null => {
                        out.push(base.fields[i].clone());
                    },
                    _ => {
                        out.push(Field { name, value: v.clone() });
                    },
                }
            },
            None => {
                out.push(base.fields[i].clone());
            },
        }
        assert(out@[i as int]@ == override_field(inc@, base@[i as int]));
        i = i + 1;
    }
    let ghost base_part = Seq::new(base@.len(), |k: int| override_field(inc@, base@[k]));
    proof {
        assert(Seq::new(out@.len(), |k: int| out@[k]@) =~= base_part);
    }
    let base_len = out.len();
    let mut j: usize = 0;
    while j < inc.fields.len()
        invariant
            j <= inc.fields.len(),
            out@.len() >= base_len as int,
            base_len as int == base@.len(),
            Seq::new(out@.len(), |k: int| out@[k]@) =~= base_part + inc@.subrange(
                0,
                j as int,
            ).filter(absent_in(base@)),
        decreases inc.fields.len() - j,
    {
        let keep = match doc_get_field(base, &inc.fields[j].name) {
            Some(_) => false,
            None => true,
        };
        let ghost before = Seq::new(out@.len(), |k: int| out@[k]@);
        if keep {
            out.push(inc.fields[j].clone());
        }
        proof {
            let pref = inc@.subrange(0, j as int);
            let prefx = inc@.subrange(0, j as int + 1);
            assert(prefx =~= pref.push(inc@[j as int]));
            pref.lemma_filter_push(inc@[j as int], absent_in(base@));
            assert(absent_in(base@)(inc@[j as int]) == keep);
            if keep {
                assert(Seq::new(out@.len(), |k: int| out@[k]@) =~= before.push(
                    inc@[j as int],
                ));
            }
            assert(Seq::new(out@.len(), |k: int| out@[k]@) =~= base_part + prefx.filter(
                absent_in(base@),
            ));
        }
        j = j + 1;
    }
    let r = Document { fields: out };
    proof {
        assert(inc@.subrange(0, inc@.len() as int) =~= inc@);
        assert(r@ =~= merged(base@, inc@));
    }
    r
}

/// Projects a document onto the requested attributes.
pub fn project_document(doc: &Document, attrs: &Vec<Vec<u8>>) -> (r: Document)
    ensures
        r@ == projected(doc@, names_model(attrs@)),
{
    let ghost sel = retained(names_model(attrs@));
    let mut out: Vec<Field> = Vec::new();
    let mut i: usize = 0;
    while i < doc.fields.len()
        invariant
            i <= doc.fields.len(),
            sel == retained(names_model(attrs@)),
            Seq::new(out@.len(), |k: int| out@[k]@) =~= doc@.subrange(0, i as int).filter(sel),
        decreases doc.fields.len() - i,
    {
        let keep = names_contain(attrs, &doc.fields[i].name);
        let ghost before = Seq::new(out@.len(), |k: int| out@[k]@);
        if keep {
            out.push(doc.fields[i].clone());
        }
        proof {
            let pref = doc@.subrange(0, i as int);
            let prefx = doc@.subrange(0, i as int + 1);
            assert(prefx =~= pref.push(doc@[i as int]));
            pref.lemma_filter_push(doc@[i as int], sel);
            assert(sel(doc@[i as int]) == keep);
            if keep {
                assert(Seq::new(out@.len(), |k: int| out@[k]@) =~= before.push(doc@[i as int]));
            }
        }
        i = i + 1;
    }
    let r = Document { fields: out };
    proof {
        assert(doc@.subrange(0, doc@.len() as int) =~= doc@);
        assert(r@ =~= projected(doc@, names_model(attrs@)));
    }
    r
}

} // verus!
