use vstd::prelude::*;

verus! {

broadcast use vstd::std_specs::vec::group_vec_axioms;

/// A JSON-like value. Documents are ordered mappings from field names to
/// values. Field names and string values are kept as UTF-8 bytes; numbers in
/// this slice are 64-bit integers.
#[derive(Debug, PartialEq, Eq)]
pub enum Value {
    Null,
    Bool(bool),
    Int(i64),
    Str(Vec<u8>),
    Arr(Vec<Value>),
    Obj(Vec<Field>),
}

/// One named field of a document or of a nested object.
#[derive(Debug, PartialEq, Eq)]
pub struct Field {
    pub name: Vec<u8>,
    pub value: Value,
}

/// A document: an ordered field mapping. Field order is preserved; a
/// well-formed document has pairwise distinct field names.
#[derive(Debug, PartialEq, Eq)]
pub struct Document {
    pub fields: Vec<Field>,
}

/// The mathematical model of a `Value`.
#[verifier::ext_equal]
pub enum ValModel {
    Null,
    Bool(bool),
    Int(int),
    Str(Seq<u8>),
    Arr(Seq<ValModel>),
    Obj(Seq<FieldModel>),
}

/// The mathematical model of a `Field`.
#[verifier::ext_equal]
pub struct FieldModel {
    pub name: Seq<u8>,
    pub value: ValModel,
}

impl Value {
    /// The mathematical model of this value.
    pub open spec fn model(self) -> ValModel
        decreases self,
        via Self::model_decreases
    {
        match self {
            Value::Null => ValModel::Null,
            Value::Bool(b) => ValModel::Bool(b),
            Value::Int(i) => ValModel::Int(i as int),
            Value::Str(s) => ValModel::Str(s@),
            Value::Arr(vs) => ValModel::Arr(value_models(vs@)),
            Value::Obj(fs) => ValModel::Obj(field_models(fs@)),
        }
    }

    #[via_fn]
    proof fn model_decreases(self) {
        broadcast use vstd::std_specs::vec::group_vec_axioms;

        match self {
            Value::Arr(vs) => {
                assert(decreases_to!(vs => vs@));
            },
            Value::Obj(fs) => {
                assert(decreases_to!(fs => fs@));
            },
            _ => {},
        }
    }
}

/// The models of a sequence of values, element-wise.
pub open spec fn value_models(s: Seq<Value>) -> Seq<ValModel>
    decreases s,
    via value_models_decreases
{
    if s.len() == 0 {
        Seq::empty()
    } else {
        seq![s[0].model()] + value_models(s.drop_first())
    }
}

#[via_fn]
proof fn value_models_decreases(s: Seq<Value>) {
    broadcast use vstd::seq::group_seq_axioms;

    if s.len() != 0 {
        assert(s.drop_first() =~= s.subrange(1, s.len() as int));
        assert(decreases_to!(s => s.subrange(1, s.len() as int)));
    }
}

/// The models of a sequence of fields, element-wise.
pub open spec fn field_models(s: Seq<Field>) -> Seq<FieldModel>
    decreases s,
    via field_models_decreases
{
    if s.len() == 0 {
        Seq::empty()
    } else {
        seq![s[0].model()] + field_models(s.drop_first())
    }
}

#[via_fn]
proof fn field_models_decreases(s: Seq<Field>) {
    broadcast use vstd::seq::group_seq_axioms;

    if s.len() != 0 {
        assert(s.drop_first() =~= s.subrange(1, s.len() as int));
        assert(decreases_to!(s => s.subrange(1, s.len() as int)));
    }
}

/// Length and elements of `value_models`.
pub proof fn lemma_value_models(s: Seq<Value>)
    ensures
        value_models(s).len() == s.len(),
        forall|i: int| 0 <= i < s.len() ==> value_models(s)[i] == s[i].model(),
    decreases s.len(),
{
    if s.len() != 0 {
        lemma_value_models(s.drop_first());
    }
}

/// Length and elements of `field_models`.
pub proof fn lemma_field_models(s: Seq<Field>)
    ensures
        field_models(s).len() == s.len(),
        forall|i: int| 0 <= i < s.len() ==> field_models(s)[i] == s[i].model(),
    decreases s.len(),
{
    if s.len() != 0 {
        lemma_field_models(s.drop_first());
    }
}

impl Field {
    /// The mathematical model of this field.
    pub open spec fn model(self) -> FieldModel
        decreases self,
    {
        FieldModel { name: self.name@, value: self.value.model() }
    }
}

impl View for Value {
    type V = ValModel;

    open spec fn view(&self) -> ValModel {
        self.model()
    }
}

impl View for Field {
    type V = FieldModel;

    open spec fn view(&self) -> FieldModel {
        self.model()
    }
}

impl View for Document {
    type V = Seq<FieldModel>;

    open spec fn view(&self) -> Seq<FieldModel> {
        Seq::new(self.fields@.len(), |i: int| self.fields@[i]@)
    }
}

/// A scalar is a non-composite, non-null value that can identify a document.
pub open spec fn is_scalar(v: ValModel) -> bool {
    v is Int || v is Str
}

/// Equality used to match primary key values: decides equality of scalars,
/// and holds of no composite or null value.
pub open spec fn scalar_eq_model(a: ValModel, b: ValModel) -> bool {
    match (a, b) {
        (ValModel::Int(x), ValModel::Int(y)) => x == y,
        (ValModel::Str(x), ValModel::Str(y)) => x == y,
        _ => false,
    }
}

/// `scalar_eq_model` only relates equal scalar values.
pub proof fn lemma_scalar_eq_is_eq(a: ValModel, b: ValModel)
    requires
        scalar_eq_model(a, b),
    ensures
        a == b,
        is_scalar(a),
        is_scalar(b),
{
}

/// A field name is present in a field sequence.
pub open spec fn has_field(fs: Seq<FieldModel>, name: Seq<u8>) -> bool {
    exists|i: int| 0 <= i < fs.len() && fs[i].name == name
}

/// The value of the first field with the given name (`Null` if absent).
pub open spec fn field_value(fs: Seq<FieldModel>, name: Seq<u8>) -> ValModel
    decreases fs.len(),
{
    if fs.len() == 0 {
        ValModel::Null
    } else if fs[0].name == name {
        fs[0].value
    } else {
        field_value(fs.drop_first(), name)
    }
}

/// Field names are pairwise distinct.
pub open spec fn wf_fields(fs: Seq<FieldModel>) -> bool {
    forall|i: int, j: int| 0 <= i < j < fs.len() ==> fs[i].name != fs[j].name
}

/// `field_value` picks the value at the first index whose name matches.
pub proof fn lemma_field_value_at(fs: Seq<FieldModel>, name: Seq<u8>, k: int)
    requires
        0 <= k < fs.len(),
        fs[k].name == name,
        forall|j: int| 0 <= j < k ==> fs[j].name != name,
    ensures
        has_field(fs, name),
        field_value(fs, name) == fs[k].value,
    decreases k,
{
    if k == 0 {
    } else {
        lemma_field_value_at(fs.drop_first(), name, k - 1);
    }
}

/// An absent name has no `field_value` witness: the spec returns `Null`.
pub proof fn lemma_field_value_absent(fs: Seq<FieldModel>, name: Seq<u8>)
    requires
        !has_field(fs, name),
    ensures
        field_value(fs, name) == ValModel::Null,
    decreases fs.len(),
{
    if fs.len() > 0 {
        assert(fs[0].name != name);
        assert(forall|i: int| 0 <= i < fs.drop_first().len() ==> fs.drop_first()[i] == fs[i + 1]);
        lemma_field_value_absent(fs.drop_first(), name);
    }
}

/// Compares two byte strings.
pub fn bytes_eq(a: &Vec<u8>, b: &Vec<u8>) -> (r: bool)
    ensures
        r == (a@ == b@),
{
    let r = a == b;
    proof {
        if r {
            assert(a@ =~= b@);
        }
    }
    r
}

impl Value {
    /// The value can serve as a document identity.
    pub fn is_scalar_value(&self) -> (r: bool)
        ensures
            r == is_scalar(self@),
    {
        match self {
            Value::Int(_) => true,
            Value::Str(_) => true,
            _ => false,
        }
    }

    /// Decides `scalar_eq_model` on the views.
    pub fn scalar_eq(&self, other: &Value) -> (r: bool)
        ensures
            r == scalar_eq_model(self@, other@),
    {
        match (self, other) {
            (Value::Int(x), Value::Int(y)) => *x == *y,
            (Value::Str(x), Value::Str(y)) => bytes_eq(x, y),
            _ => false,
        }
    }
}

impl Clone for Value {
    /// A clone has the same model.
    fn clone(&self) -> (r: Value)
        ensures
            r@ == self@,
        decreases self,
    {
        match self {
            Value::Null => Value::Null,
            Value::Bool(b) => Value::Bool(*b),
            Value::Int(i) => Value::Int(*i),
            Value::Str(s) => Value::Str(clone_bytes(s)),
            Value::Arr(vs) => {
                let mut out: Vec<Value> = Vec::new();
                let mut i: usize = 0;
                while i < vs.len()
                    invariant
                        *self == Value::Arr(*vs),
                        i <= vs.len(),
                        out@.len() == i as int,
                        forall|j: int| 0 <= j < i as int ==> out@[j]@ == vs@[j]@,
                    decreases vs.len() - i,
                {
                    proof {
                        assert(*vs == self->Arr_0);
                        assert(decreases_to!(*self => self->Arr_0));
                        assert(decreases_to!(*vs => vs@));
                        assert(decreases_to!(vs@ => vs@[i as int]));
                    }
                    let v = vs[i].clone();
                    out.push(v);
                    i = i + 1;
                }
                proof {
                    lemma_value_models(out@);
                    lemma_value_models(vs@);
                    assert(value_models(out@) =~= value_models(vs@));
                }
                Value::Arr(out)
            },
            Value::Obj(fs) => {
                let mut out: Vec<Field> = Vec::new();
                let mut i: usize = 0;
                while i < fs.len()
                    invariant
                        *self == Value::Obj(*fs),
                        i <= fs.len(),
                        out@.len() == i as int,
                        forall|j: int| 0 <= j < i as int ==> out@[j]@ == fs@[j]@,
                    decreases fs.len() - i,
                {
                    proof {
                        assert(*fs == self->Obj_0);
                        assert(decreases_to!(*self => self->Obj_0));
                        assert(decreases_to!(*fs => fs@));
                        assert(decreases_to!(fs@ => fs@[i as int]));
                    }
                    let f = fs[i].clone();
                    out.push(f);
                    i = i + 1;
                }
                proof {
                    lemma_field_models(out@);
                    lemma_field_models(fs@);
                    assert(field_models(out@) =~= field_models(fs@));
                }
                Value::Obj(out)
            },
        }
    }
}

impl Clone for Field {
    /// A clone has the same model.
    fn clone(&self) -> (r: Field)
        ensures
            r@ == self@,
        decreases self,
    {
        let r = Field { name: clone_bytes(&self.name), value: self.value.clone() };
        r
    }
}

impl Clone for Document {
    /// A clone has the same model.
    fn clone(&self) -> (r: Document)
        ensures
            r@ == self@,
    {
        let mut out: Vec<Field> = Vec::new();
        let mut i: usize = 0;
        while i < self.fields.len()
            invariant
                i <= self.fields.len(),
                out@.len() == i as int,
                forall|j: int| 0 <= j < i as int ==> out@[j]@ == self.fields@[j]@,
            decreases self.fields.len() - i,
        {
            let f = self.fields[i].clone();
            out.push(f);
            i = i + 1;
        }
        let r = Document { fields: out };
        proof {
            assert(r@ =~= self@);
        }
        r
    }
}

/// Copies a byte string.
pub fn clone_bytes(a: &Vec<u8>) -> (r: Vec<u8>)
    ensures
        r@ == a@,
{
    let r = a.clone();
    proof {
        assert(r@ =~= a@);
    }
    r
}

} // verus!
