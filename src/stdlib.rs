use vstd::prelude::*;
use vstd::string::*;

use crate::manifest::{field_order, visible_fields, ErrorKind, ErrorModel, ManifestError};
use crate::value::{ObjField, ObjValue, Thunk, Val, ValType};

verus! {

/// The index of the first of the first `n` fields whose key is `key`.
pub open spec fn first_with_key(fields: Seq<ObjField>, key: Seq<char>, n: nat) -> Option<int>
    decreases n,
{
    if n == 0 {
        None
    } else {
        match first_with_key(fields, key, (n - 1) as nat) {
            Some(j) => Some(j),
            None => if fields[n - 1].key@ == key {
                Some(n - 1)
            } else {
                None
            },
        }
    }
}

proof fn lemma_first_with_key_stays(fields: Seq<ObjField>, key: Seq<char>, k: nat, n: nat)
    requires
        k <= n,
        first_with_key(fields, key, k) is Some,
    ensures
        first_with_key(fields, key, n) == first_with_key(fields, key, k),
    decreases n - k,
{
    if k < n {
        lemma_first_with_key_stays(fields, key, k, (n - 1) as nat);
    }
}

/// What forcing a slot gives.
pub open spec fn forced(t: Thunk) -> Result<Val, ErrorModel> {
    match t {
        Thunk::Ready(v) => Ok(v),
        Thunk::Failed(m) => Err((ErrorKind::UpstreamEvaluationFailure(m), Seq::empty())),
    }
}

/// What a lookup of `key` in `o` gives: the field's value where the field
/// exists and may be seen, else the default (`null` when there is none).
pub open spec fn get_result(o: ObjValue, key: Seq<char>, default: Option<Thunk>, inc_hidden: bool) -> Result<Val, ErrorModel> {
    let fallback = match default {
        Some(t) => forced(t),
        None => Ok(Val::Null),
    };
    match first_with_key(o.fields@, key, o.fields.len() as nat) {
        Some(j) => if inc_hidden || o.fields@[j].visible {
            forced(o.fields@[j].value)
        } else {
            fallback
        },
        None => fallback,
    }
}

fn force(t: Thunk) -> (r: Result<Val, ManifestError>)
    ensures
        match forced(t) {
            Ok(v) => r is Ok && r->Ok_0 == v,
            Err(e) => r is Err && r->Err_0@ == e,
        },
{
    match t {
        Thunk::Ready(v) => Ok(v),
        Thunk::Failed(m) => {
            let e = ManifestError { kind: ErrorKind::UpstreamEvaluationFailure(m), trail: Vec::new() };
            assert(e@ =~= forced(t)->Err_0);
            Err(e)
        },
    }
}

/// The field `f` of `o`, hidden ones included when `inc_hidden`; where there
/// is no such field, the forced `default`, or `null`.
pub fn builtin_get(o: ObjValue, f: String, default: Option<Thunk>, inc_hidden: bool) -> (r: Result<Val, ManifestError>)
    ensures
        match get_result(o, f@, default, inc_hidden) {
            Ok(v) => r is Ok && r->Ok_0 == v,
            Err(e) => r is Err && r->Err_0@ == e,
        },
{
    let ghost orig = o;
    let mut fields = o.fields;
    let n = fields.len();
    let mut i: usize = 0;
    while i < n && !(fields[i].key == f)
        invariant
            i <= n,
            n == fields.len(),
            fields@ == orig.fields@,
            first_with_key(fields@, f@, i as nat) is None,
        decreases n - i,
    {
        i = i + 1;
    }
    if i < n {
        proof {
            lemma_first_with_key_stays(fields@, f@, (i + 1) as nat, n as nat);
        }
        if inc_hidden || fields[i].visible {
            let field = fields.remove(i);
            return force(field.value);
        }
    }
    match default {
        Some(t) => force(t),
        None => Ok(Val::Null),
    }
}

/// Whether two values are equal: values of one kind with equal contents,
/// arrays item by item, objects by their visible keys in key order and then
/// field by field; comparing two functions fails.
pub open spec fn vals_equal(a: Val, b: Val) -> Result<bool, ErrorModel>
    decreases a,
{
    match (a, b) {
        (Val::Bool(x), Val::Bool(y)) => Ok(x == y),
        (Val::Null, Val::Null) => Ok(true),
        (Val::Str(x), Val::Str(y)) => Ok(x@ == y@),
        (Val::Num(x), Val::Num(y)) => Ok(x@ == y@),
        (Val::BigInt(x), Val::BigInt(y)) => Ok(x@ == y@),
        (Val::Arr(x), Val::Arr(y)) => if x.len() != y.len() {
            Ok(false)
        } else {
            items_equal(x, y, x.len() as nat)
        },
        (Val::Obj(x), Val::Obj(y)) => {
            let kx = visible_keys(x);
            let ky = visible_keys(y);
            if kx != ky {
                Ok(false)
            } else {
                fields_equal(x.fields, field_order(x, false), y, field_order(y, false), kx.len())
            }
        },
        (Val::Func(_), Val::Func(_)) => Err((ErrorKind::FunctionsNotComparable, Seq::empty())),
        _ => Ok(false),
    }
}

/// The visible keys of `o`, in key order.
pub open spec fn visible_keys(o: ObjValue) -> Seq<Seq<char>> {
    field_order(o, false).map_values(|j: usize| o.fields@[j as int].key@)
}

/// Whether the first `n` items of `x` and `y` are pairwise equal.
pub open spec fn items_equal(x: Vec<Thunk>, y: Vec<Thunk>, n: nat) -> Result<bool, ErrorModel>
    decreases x, n,
{
    if n == 0 || n > x.len() || n > y.len() {
        Ok(true)
    } else {
        match items_equal(x, y, (n - 1) as nat) {
            Ok(true) => match (x[n - 1], y[n - 1]) {
                (Thunk::Failed(m), _) => Err((ErrorKind::UpstreamEvaluationFailure(m), Seq::empty())),
                (Thunk::Ready(_), Thunk::Failed(m)) => Err((ErrorKind::UpstreamEvaluationFailure(m), Seq::empty())),
                (Thunk::Ready(p), Thunk::Ready(q)) => vals_equal(p, q),
            },
            other => other,
        }
    }
}

/// Whether the first `n` fields that `ox` and `oy` list are pairwise equal.
pub open spec fn fields_equal(xf: Vec<ObjField>, ox: Seq<usize>, y: ObjValue, oy: Seq<usize>, n: nat) -> Result<bool, ErrorModel>
    decreases xf, n,
{
    if n == 0 || n > ox.len() || n > oy.len() || ox[n - 1] >= xf.len() || oy[n - 1] >= y.fields.len() {
        Ok(true)
    } else {
        match fields_equal(xf, ox, y, oy, (n - 1) as nat) {
            Ok(true) => match (xf[ox[n - 1] as int].value, y.fields[oy[n - 1] as int].value) {
                (Thunk::Failed(m), _) => Err((ErrorKind::UpstreamEvaluationFailure(m), Seq::empty())),
                (Thunk::Ready(_), Thunk::Failed(m)) => Err((ErrorKind::UpstreamEvaluationFailure(m), Seq::empty())),
                (Thunk::Ready(p), Thunk::Ready(q)) => vals_equal(p, q),
            },
            other => other,
        }
    }
}

proof fn lemma_items_equal_stays(x: Vec<Thunk>, y: Vec<Thunk>, k: nat, n: nat)
    requires
        k <= n <= x.len(),
        n <= y.len(),
        items_equal(x, y, k) != Ok::<bool, ErrorModel>(true),
    ensures
        items_equal(x, y, n) == items_equal(x, y, k),
    decreases n - k,
{
    if k < n {
        lemma_items_equal_stays(x, y, k, (n - 1) as nat);
    }
}

proof fn lemma_fields_equal_stays(xf: Vec<ObjField>, ox: Seq<usize>, y: ObjValue, oy: Seq<usize>, k: nat, n: nat)
    requires
        k <= n <= ox.len(),
        n <= oy.len(),
        forall|m: int| 0 <= m < ox.len() ==> ox[m] < xf.len(),
        forall|m: int| 0 <= m < oy.len() ==> oy[m] < y.fields.len(),
        fields_equal(xf, ox, y, oy, k) != Ok::<bool, ErrorModel>(true),
    ensures
        fields_equal(xf, ox, y, oy, n) == fields_equal(xf, ox, y, oy, k),
    decreases n - k,
{
    if k < n {
        lemma_fields_equal_stays(xf, ox, y, oy, k, (n - 1) as nat);
    }
}

fn upstream(m: &String) -> (r: ManifestError)
    ensures
        r@ == (ErrorKind::UpstreamEvaluationFailure(*m), Seq::<crate::manifest::Frame>::empty()),
{
    let r = ManifestError { kind: ErrorKind::UpstreamEvaluationFailure(m.clone()), trail: Vec::new() };
    assert(r.trail@ =~= Seq::<crate::manifest::Frame>::empty());
    r
}

fn arrays_equal(x: &Vec<Thunk>, y: &Vec<Thunk>) -> (r: Result<bool, ManifestError>)
    requires
        x.len() == y.len(),
    ensures
        match items_equal(*x, *y, x.len() as nat) {
            Ok(t) => r is Ok && r->Ok_0 == t,
            Err(e) => r is Err && r->Err_0@ == e,
        },
    decreases x, 0nat,
{
    let n = x.len();
    let mut i: usize = 0;
    while i < n
        invariant
            i <= n,
            n == x.len(),
            n == y.len(),
            items_equal(*x, *y, i as nat) == Ok::<bool, ErrorModel>(true),
        decreases n - i,
    {
        let res = match (&x[i], &y[i]) {
            (Thunk::Failed(m), _) => Err(upstream(m)),
            (Thunk::Ready(_), Thunk::Failed(m)) => Err(upstream(m)),
            (Thunk::Ready(p), Thunk::Ready(q)) => {
                proof {
                    assert(decreases_to!(*x => x[i as int]));
                }
                equals(p, q)
            },
        };
        match res {
            Ok(true) => {},
            Ok(false) => {
                proof {
                    lemma_items_equal_stays(*x, *y, (i + 1) as nat, n as nat);
                }
                return Ok(false);
            },
            Err(e) => {
                proof {
                    lemma_items_equal_stays(*x, *y, (i + 1) as nat, n as nat);
                }
                return Err(e);
            },
        }
        i = i + 1;
    }
    Ok(true)
}

fn objects_equal(x: &ObjValue, y: &ObjValue) -> (r: Result<bool, ManifestError>)
    ensures
        match vals_equal(Val::Obj(*x), Val::Obj(*y)) {
            Ok(t) => r is Ok && r->Ok_0 == t,
            Err(e) => r is Err && r->Err_0@ == e,
        },
    decreases x, 0nat,
{
    let ox = visible_fields(x, false);
    let oy = visible_fields(y, false);
    let ghost kx = visible_keys(*x);
    let ghost ky = visible_keys(*y);
    if ox.len() != oy.len() {
        assert(kx.len() != ky.len());
        return Ok(false);
    }
    let n = ox.len();
    let mut i: usize = 0;
    while i < n
        invariant
            i <= n,
            n == ox@.len(),
            n == oy@.len(),
            ox@ == field_order(*x, false),
            oy@ == field_order(*y, false),
            kx == visible_keys(*x),
            ky == visible_keys(*y),
            forall|m: int| 0 <= m < ox@.len() ==> ox@[m] < x.fields.len(),
            forall|m: int| 0 <= m < oy@.len() ==> oy@[m] < y.fields.len(),
            forall|m: int| 0 <= m < i ==> kx[m] == ky[m],
        decreases n - i,
    {
        if !(x.fields[ox[i]].key == y.fields[oy[i]].key) {
            assert(kx[i as int] != ky[i as int]);
            return Ok(false);
        }
        i = i + 1;
    }
    assert(kx =~= ky);
    let mut i: usize = 0;
    while i < n
        invariant
            i <= n,
            n == ox@.len(),
            n == oy@.len(),
            kx == ky,
            kx.len() == n,
            ox@ == field_order(*x, false),
            oy@ == field_order(*y, false),
            kx == visible_keys(*x),
            ky == visible_keys(*y),
            forall|m: int| 0 <= m < ox@.len() ==> ox@[m] < x.fields.len(),
            forall|m: int| 0 <= m < oy@.len() ==> oy@[m] < y.fields.len(),
            fields_equal(x.fields, ox@, *y, oy@, i as nat) == Ok::<bool, ErrorModel>(true),
        decreases n - i,
    {
        let res = match (&x.fields[ox[i]].value, &y.fields[oy[i]].value) {
            (Thunk::Failed(m), _) => Err(upstream(m)),
            (Thunk::Ready(_), Thunk::Failed(m)) => Err(upstream(m)),
            (Thunk::Ready(p), Thunk::Ready(q)) => {
                proof {
                    assert(decreases_to!(x.fields => x.fields[ox@[i as int] as int]));
                }
                equals(p, q)
            },
        };
        match res {
            Ok(true) => {},
            Ok(false) => {
                proof {
                    lemma_fields_equal_stays(x.fields, ox@, *y, oy@, (i + 1) as nat, n as nat);
                }
                return Ok(false);
            },
            Err(e) => {
                proof {
                    lemma_fields_equal_stays(x.fields, ox@, *y, oy@, (i + 1) as nat, n as nat);
                }
                return Err(e);
            },
        }
        i = i + 1;
    }
    Ok(true)
}

/// Whether two values are equal; comparing two functions fails.
pub fn equals(a: &Val, b: &Val) -> (r: Result<bool, ManifestError>)
    ensures
        match vals_equal(*a, *b) {
            Ok(t) => r is Ok && r->Ok_0 == t,
            Err(e) => r is Err && r->Err_0@ == e,
        },
    decreases a, 1nat,
{
    match (a, b) {
        (Val::Bool(x), Val::Bool(y)) => Ok(*x == *y),
        (Val::Null, Val::Null) => Ok(true),
        (Val::Str(x), Val::Str(y)) => Ok(*x == *y),
        (Val::Num(x), Val::Num(y)) => Ok(*x == *y),
        (Val::BigInt(x), Val::BigInt(y)) => Ok(*x == *y),
        (Val::Arr(x), Val::Arr(y)) => {
            if x.len() != y.len() {
                Ok(false)
            } else {
                arrays_equal(x, y)
            }
        },
        (Val::Obj(x), Val::Obj(y)) => objects_equal(x, y),
        (Val::Func(_), Val::Func(_)) => {
            let e = ManifestError { kind: ErrorKind::FunctionsNotComparable, trail: Vec::new() };
            assert(e@ =~= vals_equal(*a, *b)->Err_0);
            Err(e)
        },
        _ => Ok(false),
    }
}

/// Whether the `n` items of `y` from its start equal those of `x` from `off`,
/// forcing and comparing them in order.
pub open spec fn aligned_equal(x: Vec<Thunk>, off: nat, y: Vec<Thunk>, n: nat) -> Result<bool, ErrorModel>
    decreases n,
{
    if n == 0 {
        Ok(true)
    } else {
        match aligned_equal(x, off, y, (n - 1) as nat) {
            Ok(true) => match (x[off + n - 1], y[n - 1]) {
                (Thunk::Failed(m), _) => Err((ErrorKind::UpstreamEvaluationFailure(m), Seq::empty())),
                (Thunk::Ready(_), Thunk::Failed(m)) => Err((ErrorKind::UpstreamEvaluationFailure(m), Seq::empty())),
                (Thunk::Ready(p), Thunk::Ready(q)) => vals_equal(p, q),
            },
            other => other,
        }
    }
}

proof fn lemma_aligned_equal_stays(x: Vec<Thunk>, off: nat, y: Vec<Thunk>, k: nat, n: nat)
    requires
        k <= n,
        aligned_equal(x, off, y, k) != Ok::<bool, ErrorModel>(true),
    ensures
        aligned_equal(x, off, y, n) == aligned_equal(x, off, y, k),
    decreases n - k,
{
    if k < n {
        lemma_aligned_equal_stays(x, off, y, k, (n - 1) as nat);
    }
}

fn items_equal_at(x: &Vec<Thunk>, off: usize, y: &Vec<Thunk>) -> (r: Result<bool, ManifestError>)
    requires
        off + y.len() <= x.len(),
    ensures
        match aligned_equal(*x, off as nat, *y, y.len() as nat) {
            Ok(t) => r is Ok && r->Ok_0 == t,
            Err(e) => r is Err && r->Err_0@ == e,
        },
{
    let n = y.len();
    let mut i: usize = 0;
    while i < n
        invariant
            i <= n,
            n == y.len(),
            off + n <= x.len(),
            aligned_equal(*x, off as nat, *y, i as nat) == Ok::<bool, ErrorModel>(true),
        decreases n - i,
    {
        let res = match (&x[off + i], &y[i]) {
            (Thunk::Failed(m), _) => Err(upstream(m)),
            (Thunk::Ready(_), Thunk::Failed(m)) => Err(upstream(m)),
            (Thunk::Ready(p), Thunk::Ready(q)) => equals(p, q),
        };
        match res {
            Ok(true) => {},
            _ => {
                proof {
                    lemma_aligned_equal_stays(*x, off as nat, *y, (i + 1) as nat, n as nat);
                }
                return res;
            },
        }
        i = i + 1;
    }
    Ok(true)
}

fn text_at(a: &str, off: usize, b: &str) -> (r: bool)
    requires
        off + b@.len() <= a@.len(),
        a@.len() <= usize::MAX,
    ensures
        r == (a@.subrange(off as int, off + b@.len()) == b@),
{
    let n = b.unicode_len();
    let mut i: usize = 0;
    while i < n
        invariant
            i <= n,
            n == b@.len(),
            off + n <= a@.len(),
            a@.len() <= usize::MAX,
            forall|m: int| 0 <= m < i ==> a@[off + m] == b@[m],
        decreases n - i,
    {
        if a.get_char(off + i) != b.get_char(i) {
            assert(a@.subrange(off as int, off + b@.len())[i as int] != b@[i as int]);
            return false;
        }
        i = i + 1;
    }
    assert(a@.subrange(off as int, off + b@.len()) =~= b@);
    true
}

/// What `builtin_starts_with` gives: whether `b` is a prefix of `a`, for
/// two strings or two arrays.
pub open spec fn starts_with_result(a: Val, b: Val) -> Result<bool, ErrorModel> {
    match (a, b) {
        (Val::Str(x), Val::Str(y)) => Ok(y@.len() <= x@.len() && x@.subrange(0, y@.len() as int) == y@),
        (Val::Arr(x), Val::Arr(y)) => if y.len() > x.len() {
            Ok(false)
        } else {
            aligned_equal(x, 0, y, y.len() as nat)
        },
        _ => Err((ErrorKind::ArgumentKinds { first: a.kind(), second: b.kind() }, Seq::empty())),
    }
}

/// What `builtin_ends_with` gives: whether `b` is a suffix of `a`, for two
/// strings or two arrays.
pub open spec fn ends_with_result(a: Val, b: Val) -> Result<bool, ErrorModel> {
    match (a, b) {
        (Val::Str(x), Val::Str(y)) => Ok(y@.len() <= x@.len() && x@.subrange(x@.len() - y@.len(), x@.len() as int) == y@),
        (Val::Arr(x), Val::Arr(y)) => if y.len() > x.len() {
            Ok(false)
        } else {
            aligned_equal(x, (x.len() - y.len()) as nat, y, y.len() as nat)
        },
        _ => Err((ErrorKind::ArgumentKinds { first: a.kind(), second: b.kind() }, Seq::empty())),
    }
}

fn kinds_error(a: &Val, b: &Val) -> (r: ManifestError)
    ensures
        r@ == (ErrorKind::ArgumentKinds { first: a.kind(), second: b.kind() }, Seq::<crate::manifest::Frame>::empty()),
{
    let r = ManifestError {
        kind: ErrorKind::ArgumentKinds { first: a.value_type(), second: b.value_type() },
        trail: Vec::new(),
    };
    assert(r.trail@ =~= Seq::<crate::manifest::Frame>::empty());
    r
}

/// Whether `b` is a prefix of `a`: two strings, or two arrays whose items
/// are compared with `equals`.
pub fn builtin_starts_with(a: &Val, b: &Val) -> (r: Result<bool, ManifestError>)
    ensures
        match starts_with_result(*a, *b) {
            Ok(t) => r is Ok && r->Ok_0 == t,
            Err(e) => r is Err && r->Err_0@ == e,
        },
{
    match (a, b) {
        (Val::Str(x), Val::Str(y)) => {
            if y.as_str().unicode_len() > x.as_str().unicode_len() {
                return Ok(false);
            }
            Ok(text_at(x.as_str(), 0, y.as_str()))
        },
        (Val::Arr(x), Val::Arr(y)) => {
            if y.len() > x.len() {
                return Ok(false);
            }
            items_equal_at(x, 0, y)
        },
        _ => Err(kinds_error(a, b)),
    }
}

/// Whether `b` is a suffix of `a`: two strings, or two arrays whose items
/// are compared with `equals`.
pub fn builtin_ends_with(a: &Val, b: &Val) -> (r: Result<bool, ManifestError>)
    ensures
        match ends_with_result(*a, *b) {
            Ok(t) => r is Ok && r->Ok_0 == t,
            Err(e) => r is Err && r->Err_0@ == e,
        },
{
    match (a, b) {
        (Val::Str(x), Val::Str(y)) => {
            let n = x.as_str().unicode_len();
            let m = y.as_str().unicode_len();
            if m > n {
                return Ok(false);
            }
            Ok(text_at(x.as_str(), n - m, y.as_str()))
        },
        (Val::Arr(x), Val::Arr(y)) => {
            if y.len() > x.len() {
                return Ok(false);
            }
            items_equal_at(x, x.len() - y.len(), y)
        },
        _ => Err(kinds_error(a, b)),
    }
}

} // verus!
