use vstd::prelude::*;
use vstd::string::StringExecFns;
use crate::json::{
    JsonScalar, ScalarModel, kw_true, kw_false, text_int_value, text_to_int, obj_model,
};

verus! {

/// Why a typed decode was rejected. Map construction is lenient; decoding
/// into a shape is strict, and these are its rejections.
#[derive(Clone, Copy, PartialEq, Eq, Structural, Debug)]
pub enum DecodeFailure {
    /// The raw body is not valid text.
    NotText,
    /// The text is not a well-formed structured document.
    Syntax,
    /// The document names one field twice.
    DuplicateField,
    /// The document carries a field the shape does not have.
    UnknownField,
    /// A field of the shape is missing from the document.
    MissingField,
    /// A field is present but its value does not fit the field's kind.
    Mismatch,
}

/// Kind of one field of a target shape.
#[derive(Clone, Copy, PartialEq, Eq, Structural, Debug)]
pub enum FieldKind {
    Integer,
    Text,
    Boolean,
}

/// A decoded field value.
#[derive(Clone, PartialEq, Eq, Debug)]
pub enum FieldValue {
    Int(i64),
    Text(String),
    Flag(bool),
}

/// Model of a decoded field value: text as a character sequence.
pub enum FieldModel {
    Int(i64),
    Text(Seq<char>),
    Flag(bool),
}

impl View for FieldValue {
    type V = FieldModel;

    open spec fn view(&self) -> FieldModel {
        match *self {
            FieldValue::Int(i) => FieldModel::Int(i),
            FieldValue::Text(s) => FieldModel::Text(s@),
            FieldValue::Flag(b) => FieldModel::Flag(b),
        }
    }
}

/// Model of a shape: named field kinds in order.
pub open spec fn shape_model(s: Seq<(String, FieldKind)>) -> Seq<(Seq<char>, FieldKind)> {
    s.map_values(|p: (String, FieldKind)| (p.0@, p.1))
}

/// Model of a decoded record: named field values in shape order.
pub open spec fn record_model(s: Seq<(String, FieldValue)>) -> Seq<(Seq<char>, FieldModel)> {
    s.map_values(|p: (String, FieldValue)| (p.0@, p.1@))
}

/// Convert one scalar to one field kind. Integer fields also accept text
/// that reads as a decimal integer, and boolean fields text that reads as a
/// truth word, so that string-map bindings can feed typed shapes.
pub open spec fn coerce(kind: FieldKind, v: ScalarModel) -> Option<FieldModel> {
    match kind {
        FieldKind::Integer => match v {
            ScalarModel::Int(i) => Some(FieldModel::Int(i)),
            ScalarModel::Text(s) => match text_int_value(s) {
                Some(i) => Some(FieldModel::Int(i)),
                None => None,
            },
            _ => None,
        },
        FieldKind::Text => match v {
            ScalarModel::Text(s) => Some(FieldModel::Text(s)),
            _ => None,
        },
        FieldKind::Boolean => match v {
            ScalarModel::Bool(b) => Some(FieldModel::Flag(b)),
            ScalarModel::Text(s) => if s == kw_true() {
                Some(FieldModel::Flag(true))
            } else if s == kw_false() {
                Some(FieldModel::Flag(false))
            } else {
                None
            },
            _ => None,
        },
    }
}

/// First scalar bound to `k` in a document.
pub open spec fn obj_lookup(o: Seq<(Seq<char>, ScalarModel)>, k: Seq<char>) -> Option<ScalarModel>
    decreases o.len(),
{
    if o.len() == 0 {
        None
    } else if o[0].0 == k {
        Some(o[0].1)
    } else {
        obj_lookup(o.drop_first(), k)
    }
}

pub open spec fn obj_keys_unique(o: Seq<(Seq<char>, ScalarModel)>) -> bool {
    forall|i: int, j: int| 0 <= i < j < o.len() ==> o[i].0 != o[j].0
}

pub open spec fn obj_keys_in_shape(
    o: Seq<(Seq<char>, ScalarModel)>,
    shp: Seq<(Seq<char>, FieldKind)>,
) -> bool {
    forall|i: int|
        0 <= i < o.len() ==> exists|j: int| 0 <= j < shp.len() && shp[j].0 == #[trigger] o[i].0
}

/// Fields of the shape bound in order from the document.
pub open spec fn bind_fields(
    o: Seq<(Seq<char>, ScalarModel)>,
    shp: Seq<(Seq<char>, FieldKind)>,
) -> Result<Seq<(Seq<char>, FieldModel)>, DecodeFailure>
    decreases shp.len(),
{
    if shp.len() == 0 {
        Ok(Seq::empty())
    } else {
        match obj_lookup(o, shp[0].0) {
            None => Err(DecodeFailure::MissingField),
            Some(v) => match coerce(shp[0].1, v) {
                None => Err(DecodeFailure::Mismatch),
                Some(fv) => match bind_fields(o, shp.drop_first()) {
                    Err(e) => Err(e),
                    Ok(rest) => Ok(seq![(shp[0].0, fv)] + rest),
                },
            },
        }
    }
}

/// The strict typed decode: a document binds to a shape exactly when its
/// fields are uniquely named, every one of them belongs to the shape, and
/// every field of the shape is present with a convertible value.
pub open spec fn bind_spec(
    o: Seq<(Seq<char>, ScalarModel)>,
    shp: Seq<(Seq<char>, FieldKind)>,
) -> Result<Seq<(Seq<char>, FieldModel)>, DecodeFailure> {
    if !obj_keys_unique(o) {
        Err(DecodeFailure::DuplicateField)
    } else if !obj_keys_in_shape(o, shp) {
        Err(DecodeFailure::UnknownField)
    } else {
        bind_fields(o, shp)
    }
}

proof fn lemma_obj_lookup_at_index(o: Seq<(Seq<char>, ScalarModel)>, k: Seq<char>, i: int)
    requires
        0 <= i < o.len(),
        o[i].0 == k,
        forall|j: int| 0 <= j < i ==> o[j].0 != k,
    ensures
        obj_lookup(o, k) == Some(o[i].1),
    decreases i,
{
    if i > 0 {
        assert(o.drop_first()[i - 1] == o[i]);
        assert(forall|j: int| 0 <= j < i - 1 ==> o.drop_first()[j] == o[j + 1]);
        lemma_obj_lookup_at_index(o.drop_first(), k, i - 1);
    }
}

proof fn lemma_obj_lookup_absent(o: Seq<(Seq<char>, ScalarModel)>, k: Seq<char>)
    requires
        forall|j: int| 0 <= j < o.len() ==> o[j].0 != k,
    ensures
        obj_lookup(o, k) is None,
    decreases o.len(),
{
    if o.len() > 0 {
        assert(forall|j: int| 0 <= j < o.drop_first().len() ==> o.drop_first()[j] == o[j + 1]);
        lemma_obj_lookup_absent(o.drop_first(), k);
    }
}

fn obj_get<'a>(obj: &'a Vec<(String, JsonScalar)>, key: &String) -> (r: Option<&'a JsonScalar>)
    ensures
        match r {
            Some(v) => obj_lookup(obj_model(obj@), key@) == Some(v@),
            None => obj_lookup(obj_model(obj@), key@) is None,
        },
{
    let n: usize = obj.len();
    let mut i: usize = 0;
    while i < n
        invariant
            n == obj@.len(),
            0 <= i <= n,
            forall|j: int| 0 <= j < i ==> obj_model(obj@)[j].0 != key@,
        decreases n - i,
    {
        if obj[i].0 == *key {
            proof {
                lemma_obj_lookup_at_index(obj_model(obj@), key@, i as int);
            }
            return Some(&obj[i].1);
        }
        i += 1;
    }
    proof {
        lemma_obj_lookup_absent(obj_model(obj@), key@);
    }
    None
}

fn coerce_exec(kind: FieldKind, v: &JsonScalar) -> (r: Option<FieldValue>)
    ensures
        match r {
            Some(f) => coerce(kind, v@) == Some(f@),
            None => coerce(kind, v@) is None,
        },
{
    match kind {
        FieldKind::Integer => match v {
            JsonScalar::Int(i) => Some(FieldValue::Int(*i)),
            JsonScalar::Text(s) => match text_to_int(s) {
                Some(i) => Some(FieldValue::Int(i)),
                None => None,
            },
            _ => None,
        },
        FieldKind::Text => match v {
            JsonScalar::Text(s) => Some(FieldValue::Text(s.clone())),
            _ => None,
        },
        FieldKind::Boolean => match v {
            JsonScalar::Bool(b) => Some(FieldValue::Flag(*b)),
            JsonScalar::Text(s) => {
                proof {
                    reveal_strlit("true");
                    reveal_strlit("false");
                    assert("true"@ =~= kw_true());
                    assert("false"@ =~= kw_false());
                }
                let t = String::from_str("true");
                let f = String::from_str("false");
                if *s == t {
                    Some(FieldValue::Flag(true))
                } else if *s == f {
                    Some(FieldValue::Flag(false))
                } else {
                    None
                }
            },
            _ => None,
        },
    }
}

spec fn res_prepend(
    p: Seq<(Seq<char>, FieldModel)>,
    r: Result<Seq<(Seq<char>, FieldModel)>, DecodeFailure>,
) -> Result<Seq<(Seq<char>, FieldModel)>, DecodeFailure> {
    match r {
        Ok(q) => Ok(p + q),
        Err(e) => Err(e),
    }
}

proof fn lemma_res_prepend_empty(r: Result<Seq<(Seq<char>, FieldModel)>, DecodeFailure>)
    ensures
        res_prepend(Seq::empty(), r) == r,
{
    match r {
        Ok(q) => {
            assert(Seq::<(Seq<char>, FieldModel)>::empty() + q =~= q);
        },
        Err(_) => {},
    }
}

proof fn lemma_res_prepend_push(
    a: Seq<(Seq<char>, FieldModel)>,
    m: (Seq<char>, FieldModel),
    r: Result<Seq<(Seq<char>, FieldModel)>, DecodeFailure>,
)
    ensures
        res_prepend(a, res_prepend(seq![m], r)) == res_prepend(a.push(m), r),
{
    match r {
        Ok(q) => {
            assert(a + (seq![m] + q) =~= a.push(m) + q);
        },
        Err(_) => {},
    }
}

/// Bind a parsed document to a shape: the executable form of `bind_spec`.
pub fn bind_shape(obj: &Vec<(String, JsonScalar)>, shape: &Vec<(String, FieldKind)>) -> (r:
    Result<Vec<(String, FieldValue)>, DecodeFailure>)
    ensures
        match r {
            Ok(rec) => bind_spec(obj_model(obj@), shape_model(shape@)) == Ok::<
                Seq<(Seq<char>, FieldModel)>,
                DecodeFailure,
            >(record_model(rec@)),
            Err(e) => bind_spec(obj_model(obj@), shape_model(shape@)) == Err::<
                Seq<(Seq<char>, FieldModel)>,
                DecodeFailure,
            >(e),
        },
{
    let ghost o = obj_model(obj@);
    let ghost shp = shape_model(shape@);
    let n: usize = obj.len();
    // Reject a document that names a field twice.
    let mut i: usize = 0;
    while i < n
        invariant
            n == obj@.len(),
            o == obj_model(obj@),
            0 <= i <= n,
            forall|a: int, b: int| 0 <= a < b < n && a < i ==> o[a].0 != o[b].0,
        decreases n - i,
    {
        let mut j: usize = i + 1;
        while j < n
            invariant
                n == obj@.len(),
                o == obj_model(obj@),
                0 <= i < j <= n,
                forall|b: int| i < b < j ==> o[i as int].0 != o[b].0,
            decreases n - j,
        {
            if obj[i].0 == obj[j].0 {
                proof {
                    assert(o[i as int] == (obj@[i as int].0@, obj@[i as int].1@));
                    assert(o[j as int] == (obj@[j as int].0@, obj@[j as int].1@));
                    assert(o[i as int].0 == o[j as int].0);
                    assert(!obj_keys_unique(o));
                }
                return Err(DecodeFailure::DuplicateField);
            }
            j += 1;
        }
        i += 1;
    }
    proof {
        assert(obj_keys_unique(o));
    }
    // Reject a document that carries a field the shape does not have.
    let m: usize = shape.len();
    let mut i2: usize = 0;
    while i2 < n
        invariant
            n == obj@.len(),
            m == shape@.len(),
            o == obj_model(obj@),
            shp == shape_model(shape@),
            obj_keys_unique(o),
            0 <= i2 <= n,
            forall|a: int|
                0 <= a < i2 ==> exists|b: int|
                    0 <= b < shp.len() && shp[b].0 == #[trigger] o[a].0,
        decreases n - i2,
    {
        let mut j2: usize = 0;
        let mut found = false;
        while j2 < m
            invariant
                n == obj@.len(),
                m == shape@.len(),
                o == obj_model(obj@),
                shp == shape_model(shape@),
                0 <= i2 < n,
                0 <= j2 <= m,
                found ==> exists|b: int| 0 <= b < shp.len() && shp[b].0 == o[i2 as int].0,
                !found ==> forall|b: int| 0 <= b < j2 ==> shp[b].0 != o[i2 as int].0,
            decreases m - j2,
        {
            if shape[j2].0 == obj[i2].0 {
                found = true;
                proof {
                    assert(shp[j2 as int] == (shape@[j2 as int].0@, shape@[j2 as int].1));
                    assert(o[i2 as int] == (obj@[i2 as int].0@, obj@[i2 as int].1@));
                    assert(shp[j2 as int].0 == o[i2 as int].0);
                }
                j2 = m;
            } else {
                j2 += 1;
            }
        }
        if !found {
            proof {
                assert(o[i2 as int] == (obj@[i2 as int].0@, obj@[i2 as int].1@));
                assert(forall|b: int| 0 <= b < shp.len() ==> shp[b].0 != o[i2 as int].0);
                assert(!obj_keys_in_shape(o, shp));
            }
            return Err(DecodeFailure::UnknownField);
        }
        i2 += 1;
    }
    proof {
        assert(obj_keys_in_shape(o, shp));
    }
    // Bind each field of the shape in order.
    let mut rec: Vec<(String, FieldValue)> = Vec::new();
    let mut k: usize = 0;
    proof {
        assert(record_model(rec@) =~= Seq::<(Seq<char>, FieldModel)>::empty());
        assert(shp.skip(0) =~= shp);
        lemma_res_prepend_empty(bind_fields(o, shp));
    }
    while k < m
        invariant
            m == shape@.len(),
            o == obj_model(obj@),
            shp == shape_model(shape@),
            obj_keys_unique(o),
            obj_keys_in_shape(o, shp),
            0 <= k <= m,
            res_prepend(record_model(rec@), bind_fields(o, shp.skip(k as int))) == bind_fields(
                o,
                shp,
            ),
        decreases m - k,
    {
        let ghost tailk = shp.skip(k as int);
        proof {
            assert(shp[k as int] == (shape@[k as int].0@, shape@[k as int].1));
            assert(tailk[0] == shp[k as int]);
            assert(tailk.drop_first() =~= shp.skip(k as int + 1));
        }
        match obj_get(obj, &shape[k].0) {
            None => {
                proof {
                    assert(bind_fields(o, tailk) == Err::<
                        Seq<(Seq<char>, FieldModel)>,
                        DecodeFailure,
                    >(DecodeFailure::MissingField));
                }
                return Err(DecodeFailure::MissingField);
            },
            Some(v) => {
                match coerce_exec(shape[k].1, v) {
                    None => {
                        proof {
                            assert(bind_fields(o, tailk) == Err::<
                                Seq<(Seq<char>, FieldModel)>,
                                DecodeFailure,
                            >(DecodeFailure::Mismatch));
                        }
                        return Err(DecodeFailure::Mismatch);
                    },
                    Some(fv) => {
                        let ghost fm = (shape@[k as int].0@, fv@);
                        proof {
                            assert(bind_fields(o, tailk) == res_prepend(
                                seq![fm],
                                bind_fields(o, shp.skip(k as int + 1)),
                            ));
                            lemma_res_prepend_push(
                                record_model(rec@),
                                fm,
                                bind_fields(o, shp.skip(k as int + 1)),
                            );
                        }
                        let name = shape[k].0.clone();
                        proof {
                            assert(record_model(rec@.push((name, fv))) =~= record_model(
                                rec@,
                            ).push(fm));
                        }
                        rec.push((name, fv));
                    },
                }
            },
        }
        k += 1;
    }
    proof {
        assert(shp.skip(m as int) =~= Seq::<(Seq<char>, FieldKind)>::empty());
        assert(record_model(rec@) + Seq::<(Seq<char>, FieldModel)>::empty() =~= record_model(
            rec@,
        ));
    }
    Ok(rec)
}

} // verus!
