use vstd::prelude::*;
use vstd::string::*;

use crate::escape::{escape_string_json_buf, escaped, push_char};
use crate::value::{ObjField, ObjValue, Thunk, Val, ValType};

verus! {

broadcast use vstd::std_specs::vec::axiom_vec_index_decreases;

/// How whitespace is laid out around container items.
#[derive(PartialEq, Eq, Structural, Clone, Copy, Debug)]
pub enum JsonFormatting {
    /// Output of a program: empty containers as `[ ]`.
    Manifest,
    /// The standard library's JSON: empty containers as `[\n\n]`.
    Std,
    /// A value turned into text on one line.
    ToString,
    /// No whitespace outside strings.
    Minify,
}

/// Options that select a JSON dialect.
#[derive(Debug)]
pub struct JsonFormat {
    pub padding: String,
    pub mtype: JsonFormatting,
    pub newline: String,
    pub key_val_sep: String,
    pub preserve_order: bool,
    pub preserve_bigints: bool,
    pub debug_truncate_strings: Option<usize>,
}

/// What went wrong.
/// A format as contracts see it.
pub struct FormatModel {
    pub padding: Seq<char>,
    pub mtype: JsonFormatting,
    pub newline: Seq<char>,
    pub key_val_sep: Seq<char>,
    pub preserve_order: bool,
    pub preserve_bigints: bool,
    pub debug_truncate_strings: Option<usize>,
}

impl View for JsonFormat {
    type V = FormatModel;

    open spec fn view(&self) -> FormatModel {
        FormatModel {
            padding: self.padding@,
            mtype: self.mtype,
            newline: self.newline@,
            key_val_sep: self.key_val_sep@,
            preserve_order: self.preserve_order,
            preserve_bigints: self.preserve_bigints,
            debug_truncate_strings: self.debug_truncate_strings,
        }
    }
}

#[derive(Debug, PartialEq, Eq)]
pub enum ErrorKind {
    /// The root value is not of the kind that the format takes.
    TypeMismatch { expected: ValType, actual: ValType },
    /// A function value cannot be written out.
    FunctionNotManifestable,
    /// One of an object's pending validations failed, with its message.
    ValidationFailed(String),
    /// Forcing a container slot failed, with the evaluator's message.
    UpstreamEvaluationFailure(String),
    /// Two function values cannot be compared.
    FunctionsNotComparable,
    /// Two arguments that must both be strings or both arrays are not.
    ArgumentKinds { first: ValType, second: ValType },
}

/// Where an error happened; a trail of them lists the innermost first.
#[derive(Debug, PartialEq, Eq)]
pub enum Frame {
    ElemEvaluation(usize),
    ElemManifestification(usize),
    FieldEvaluation(String),
    FieldManifestification(String),
}

#[derive(Debug)]
pub struct ManifestError {
    pub kind: ErrorKind,
    pub trail: Vec<Frame>,
}

/// An error as contracts see it: its kind and its trail of frames.
pub type ErrorModel = (ErrorKind, Seq<Frame>);

impl View for ManifestError {
    type V = ErrorModel;

    open spec fn view(&self) -> ErrorModel {
        (self.kind, self.trail@)
    }
}

/// The text written for a string under an optional truncation limit: past the
/// limit, the middle gives way to `..`.
pub open spec fn shown_text(t: Seq<char>, limit: Option<usize>) -> Seq<char> {
    match limit {
        Some(l) => if t.len() > l {
            t.subrange(0, (l / 2) as int) + seq!['.', '.'] + t.subrange(t.len() - (l / 2) as int, t.len() as int)
        } else {
            t
        },
        None => t,
    }
}

/// What precedes item `i` of a container.
pub open spec fn item_sep(
    mtype: JsonFormatting,
    i: int,
    newline: Seq<char>,
    indent: Seq<char>,
) -> Seq<char> {
    (if i != 0 { seq![','] } else { Seq::empty() }) + match mtype {
        JsonFormatting::Manifest | JsonFormatting::Std => newline + indent,
        JsonFormatting::ToString => if i != 0 { seq![' '] } else { Seq::empty() },
        JsonFormatting::Minify => Seq::empty(),
    }
}

/// What follows the last item of a container, before its closing bracket.
pub open spec fn closing(
    mtype: JsonFormatting,
    had_items: bool,
    newline: Seq<char>,
    indent: Seq<char>,
) -> Seq<char> {
    match mtype {
        JsonFormatting::Manifest => if had_items { newline + indent } else { seq![' '] },
        JsonFormatting::ToString => if had_items { Seq::empty() } else { seq![' '] },
        JsonFormatting::Std => if had_items { newline + indent } else { newline + newline + indent },
        JsonFormatting::Minify => Seq::empty(),
    }
}

/// The same error with one more frame on its trail.
pub open spec fn framed(e: ErrorModel, f: Frame) -> ErrorModel {
    (e.0, e.1.push(f))
}

/// The indices `0 .. n`.
pub open spec fn first_indices(n: nat) -> Seq<usize> {
    Seq::new(n, |i: int| i as usize)
}

/// The order of a stable sort of `idx` by the key that each index names.
pub uninterp spec fn sorted_by_key(idx: Seq<usize>, keys: Seq<Seq<char>>) -> Seq<usize>;

/// The indices of `ord` that name visible fields, in the same order.
pub open spec fn visible_only(fields: Seq<ObjField>, ord: Seq<usize>) -> Seq<usize>
    decreases ord.len(),
{
    if ord.len() == 0 {
        Seq::empty()
    } else {
        let rest = visible_only(fields, ord.drop_last());
        let j = ord.last();
        if j < fields.len() && fields[j as int].visible {
            rest.push(j)
        } else {
            rest
        }
    }
}

/// The fields an object writes out, in the order it writes them: insertion
/// order when it is kept, else the mapping's own order (by key).
pub open spec fn field_order(o: ObjValue, preserve: bool) -> Seq<usize> {
    let all = first_indices(o.fields.len() as nat);
    visible_only(o.fields@, if preserve { all } else { sorted_by_key(all, o.keys()) })
}

/// The JSON text of `v` written at indentation `indent`, or the error that
/// writing it meets first.
pub open spec fn json_of(v: Val, indent: Seq<char>, f: FormatModel) -> Result<Seq<char>, ErrorModel>
    decreases v,
{
    match v {
        Val::Bool(b) => Ok(if b { "true"@ } else { "false"@ }),
        Val::Null => Ok("null"@),
        Val::Str(s) => Ok(escaped(shown_text(s@, f.debug_truncate_strings))),
        Val::Num(t) => Ok(t@),
        Val::BigInt(d) => Ok(if f.preserve_bigints { d@ } else { escaped(d@) }),
        Val::Arr(items) => {
            match items_json(items, items.len() as nat, indent + f.padding, f) {
                Ok(body) => Ok(seq!['['] + body + closing(f.mtype, items.len() > 0, f.newline, indent) + seq![']']),
                Err(e) => Err(e),
            }
        },
        Val::Obj(o) => {
            match o.failed_assertion {
                Some(m) => Err((ErrorKind::ValidationFailed(m), Seq::empty())),
                None => {
                    let ord = field_order(o, f.preserve_order);
                    match fields_json(o.fields, ord, ord.len(), indent + f.padding, f) {
                        Ok(body) => Ok(seq!['{'] + body + closing(f.mtype, ord.len() > 0, f.newline, indent) + seq!['}']),
                        Err(e) => Err(e),
                    }
                },
            }
        },
        Val::Func(_) => Err((ErrorKind::FunctionNotManifestable, Seq::empty())),
    }
}

/// The text of the first `n` items of an array, with their separators.
pub open spec fn items_json(items: Vec<Thunk>, n: nat, indent: Seq<char>, f: FormatModel) -> Result<Seq<char>, ErrorModel>
    decreases items, n,
{
    if n == 0 || n > items.len() {
        Ok(Seq::empty())
    } else {
        match items_json(items, (n - 1) as nat, indent, f) {
            Err(e) => Err(e),
            Ok(pre) => match items[n - 1] {
                Thunk::Failed(m) => Err((ErrorKind::UpstreamEvaluationFailure(m), seq![Frame::ElemEvaluation((n - 1) as usize)])),
                Thunk::Ready(x) => match json_of(x, indent, f) {
                    Err(e) => Err(framed(e, Frame::ElemManifestification((n - 1) as usize))),
                    Ok(t) => Ok(pre + item_sep(f.mtype, n - 1, f.newline, indent) + t),
                },
            },
        }
    }
}

/// The text of the first `n` fields that `ord` lists, with their separators.
pub open spec fn fields_json(fields: Vec<ObjField>, ord: Seq<usize>, n: nat, indent: Seq<char>, f: FormatModel) -> Result<Seq<char>, ErrorModel>
    decreases fields, n,
{
    if n == 0 || n > ord.len() {
        Ok(Seq::empty())
    } else {
        match fields_json(fields, ord, (n - 1) as nat, indent, f) {
            Err(e) => Err(e),
            Ok(pre) => if ord[n - 1] >= fields.len() {
                Ok(pre)
            } else {
                let field = fields[ord[n - 1] as int];
                match field.value {
                    Thunk::Failed(m) => Err((ErrorKind::UpstreamEvaluationFailure(m), seq![Frame::FieldEvaluation(field.key)])),
                    Thunk::Ready(x) => match json_of(x, indent, f) {
                        Err(e) => Err(framed(e, Frame::FieldManifestification(field.key))),
                        Ok(t) => Ok(pre + item_sep(f.mtype, n - 1, f.newline, indent) + escaped(field.key@) + f.key_val_sep + t),
                    },
                }
            },
        }
    }
}

/// An object without fields writes none.
pub proof fn lemma_no_fields_no_order(o: ObjValue, preserve: bool)
    requires
        o.fields.len() == 0,
    ensures
        field_order(o, preserve).len() == 0,
{
    let all = first_indices(0);
    let ord = if preserve { all } else { sorted_by_key(all, o.keys()) };
    lemma_visible_only_empty(o.fields@, ord);
}

proof fn lemma_visible_only_empty(fields: Seq<ObjField>, ord: Seq<usize>)
    requires
        fields.len() == 0,
    ensures
        visible_only(fields, ord).len() == 0,
    decreases ord.len(),
{
    if ord.len() > 0 {
        lemma_visible_only_empty(fields, ord.drop_last());
    }
}

/// Relies on `slice::sort_by` with `str`'s ordering: a stable sort of the
/// indices by the key that each names, which only reorders them.
#[verifier::external_body]
fn sort_by_key(idx: &mut Vec<usize>, keys: &Vec<String>)
    requires
        forall|k: int| 0 <= k < old(idx)@.len() ==> old(idx)@[k] < keys@.len(),
    ensures
        final(idx)@ == sorted_by_key(old(idx)@, keys@.map_values(|s: String| s@)),
        final(idx)@.len() == old(idx)@.len(),
        forall|k: int|
            0 <= k < final(idx)@.len() ==> exists|j: int|
                0 <= j < old(idx)@.len() && #[trigger] final(idx)@[k] == #[trigger] old(idx)@[j],
{
    idx.sort_by(|a, b| keys[*a].as_str().cmp(keys[*b].as_str()))
}

/// The indices of the fields that `o` writes out, in the order it writes them.
pub(crate) fn visible_fields(o: &ObjValue, preserve: bool) -> (r: Vec<usize>)
    ensures
        r@ == field_order(*o, preserve),
        forall|k: int| 0 <= k < r@.len() ==> r@[k] < o.fields.len(),
{
    let n = o.fields.len();
    let mut idx: Vec<usize> = Vec::new();
    let mut i: usize = 0;
    while i < n
        invariant
            i <= n,
            n == o.fields.len(),
            idx@ == first_indices(i as nat),
        decreases n - i,
    {
        idx.push(i);
        i = i + 1;
        assert(idx@ =~= first_indices(i as nat));
    }
    if !preserve {
        let mut keys: Vec<String> = Vec::new();
        let mut i: usize = 0;
        while i < n
            invariant
                i <= n,
                n == o.fields.len(),
                keys@.len() == i,
                forall|m: int| 0 <= m < i ==> #[trigger] keys@[m]@ == o.fields@[m].key@,
                idx@ == first_indices(n as nat),
            decreases n - i,
        {
            keys.push(o.fields[i].key.clone());
            i = i + 1;
        }
        assert(keys@.map_values(|s: String| s@) =~= o.keys());
        let ghost before = idx@;
        sort_by_key(&mut idx, &keys);
        assert forall|k: int| 0 <= k < idx@.len() implies idx@[k] < n by {
            let j = choose|j: int| 0 <= j < before.len() && #[trigger] idx@[k] == #[trigger] before[j];
        }
    }
    let ghost ord = idx@;
    let mut r: Vec<usize> = Vec::new();
    let mut k: usize = 0;
    while k < idx.len()
        invariant
            k <= idx@.len(),
            idx@ == ord,
            n == o.fields.len(),
            forall|m: int| 0 <= m < ord.len() ==> ord[m] < n,
            r@ == visible_only(o.fields@, ord.subrange(0, k as int)),
            forall|m: int| 0 <= m < r@.len() ==> r@[m] < n,
        decreases idx@.len() - k,
    {
        let j = idx[k];
        assert(ord.subrange(0, k + 1).drop_last() =~= ord.subrange(0, k as int));
        if o.fields[j].visible {
            r.push(j);
        }
        k = k + 1;
    }
    assert(ord.subrange(0, idx@.len() as int) =~= ord);
    r
}

pub proof fn lemma_items_err_stays(items: Vec<Thunk>, k: nat, n: nat, indent: Seq<char>, f: FormatModel)
    requires
        k <= n <= items.len(),
        items_json(items, k, indent, f) is Err,
    ensures
        items_json(items, n, indent, f) == items_json(items, k, indent, f),
    decreases n - k,
{
    if k < n {
        lemma_items_err_stays(items, k, (n - 1) as nat, indent, f);
    }
}

pub proof fn lemma_fields_err_stays(
    fields: Vec<ObjField>,
    ord: Seq<usize>,
    k: nat,
    n: nat,
    indent: Seq<char>,
    f: FormatModel,
)
    requires
        k <= n <= ord.len(),
        fields_json(fields, ord, k, indent, f) is Err,
    ensures
        fields_json(fields, ord, n, indent, f) == fields_json(fields, ord, k, indent, f),
    decreases n - k,
{
    if k < n {
        lemma_fields_err_stays(fields, ord, k, (n - 1) as nat, indent, f);
    }
}

proof fn lemma_object_err(o: ObjValue, indent: Seq<char>, f: FormatModel)
    requires
        o.failed_assertion is None,
        fields_json(o.fields, field_order(o, f.preserve_order), field_order(o, f.preserve_order).len(), indent + f.padding, f) is Err,
    ensures
        json_of(Val::Obj(o), indent, f) == fields_json(o.fields, field_order(o, f.preserve_order), field_order(o, f.preserve_order).len(), indent + f.padding, f),
{
}

fn push_item_sep(buf: &mut String, mtype: JsonFormatting, i: usize, newline: &String, indent: &String)
    ensures
        final(buf)@ == old(buf)@ + item_sep(mtype, i as int, newline@, indent@),
{
    if i != 0 {
        push_char(buf, ',');
    }
    match mtype {
        JsonFormatting::Manifest | JsonFormatting::Std => {
            buf.append(newline.as_str());
            buf.append(indent.as_str());
        },
        JsonFormatting::ToString => {
            if i != 0 {
                push_char(buf, ' ');
            }
        },
        JsonFormatting::Minify => {},
    }
    assert(final(buf)@ =~= old(buf)@ + item_sep(mtype, i as int, newline@, indent@));
}

fn push_closing(buf: &mut String, mtype: JsonFormatting, had_items: bool, newline: &String, indent: &String)
    ensures
        final(buf)@ == old(buf)@ + closing(mtype, had_items, newline@, indent@),
{
    match mtype {
        JsonFormatting::Manifest => {
            if had_items {
                buf.append(newline.as_str());
                buf.append(indent.as_str());
            } else {
                push_char(buf, ' ');
            }
        },
        JsonFormatting::ToString => {
            if !had_items {
                push_char(buf, ' ');
            }
        },
        JsonFormatting::Std => {
            if !had_items {
                buf.append(newline.as_str());
            }
            buf.append(newline.as_str());
            buf.append(indent.as_str());
        },
        JsonFormatting::Minify => {},
    }
    assert(final(buf)@ =~= old(buf)@ + closing(mtype, had_items, newline@, indent@));
}

/// The text of `s` as written under an optional truncation limit.
fn truncated(s: &String, limit: Option<usize>) -> (r: String)
    ensures
        r@ == shown_text(s@, limit),
{
    let n = s.as_str().unicode_len();
    match limit {
        Some(l) => {
            if n > l {
                let half = l / 2;
                let mut r = String::new();
                r.append(s.as_str().substring_char(0, half));
                r.append("..");
                r.append(s.as_str().substring_char(n - half, n));
                proof {
                    reveal_strlit("..");
                }
                assert(r@ =~= shown_text(s@, limit));
                r
            } else {
                s.clone()
            }
        },
        None => s.clone(),
    }
}

/// Appends the JSON text of the array `items` at indentation `cur_padding`.
fn write_array(items: &Vec<Thunk>, buf: &mut String, cur_padding: &String, options: &JsonFormat) -> (r: Result<(), ManifestError>)
    ensures
        match json_of(Val::Arr(*items), cur_padding@, options@) {
            Ok(t) => r is Ok && final(buf)@ == old(buf)@ + t,
            Err(e) => r is Err && r->Err_0@ == e,
        },
    decreases items, 0nat,
{
    let ghost start = buf@;
    push_char(buf, '[');
    let mut inner = cur_padding.clone();
    inner.append(options.padding.as_str());
    let ghost ind = inner@;
    let mut i: usize = 0;
    while i < items.len()
        invariant
            i <= items.len(),
            inner@ == ind,
            ind == cur_padding@ + options.padding@,
            items_json(*items, i as nat, ind, options@) is Ok,
            buf@ == start + seq!['['] + items_json(*items, i as nat, ind, options@)->Ok_0,
        decreases items.len() - i,
    {
        match &items[i] {
            Thunk::Failed(m) => {
                let mut trail: Vec<Frame> = Vec::new();
                trail.push(Frame::ElemEvaluation(i));
                let e = ManifestError { kind: ErrorKind::UpstreamEvaluationFailure(m.clone()), trail };
                proof {
                    assert(e@ =~= items_json(*items, (i + 1) as nat, ind, options@)->Err_0);
                    lemma_items_err_stays(*items, (i + 1) as nat, items.len() as nat, ind, options@);
                }
                return Err(e);
            },
            Thunk::Ready(x) => {
                push_item_sep(buf, options.mtype, i, &options.newline, &inner);
                proof {
                    assert(decreases_to!(*items => items[i as int]));
                }
                let res = manifest_json_ex_buf(x, buf, &inner, options);
                match res {
                    Err(mut e) => {
                        let ghost inner_err = e@;
                        e.trail.push(Frame::ElemManifestification(i));
                        proof {
                            assert(e@ =~= framed(inner_err, Frame::ElemManifestification(i)));
                            lemma_items_err_stays(*items, (i + 1) as nat, items.len() as nat, ind, options@);
                        }
                        return Err(e);
                    },
                    Ok(()) => {},
                }
            },
        }
        i = i + 1;
        assert(buf@ =~= start + seq!['['] + items_json(*items, i as nat, ind, options@)->Ok_0);
    }
    push_closing(buf, options.mtype, items.len() > 0, &options.newline, cur_padding);
    push_char(buf, ']');
    assert(buf@ =~= start + json_of(Val::Arr(*items), cur_padding@, options@)->Ok_0);
    Ok(())
}

/// Appends the JSON text of the object `o` at indentation `cur_padding`.
fn write_object(o: &ObjValue, buf: &mut String, cur_padding: &String, options: &JsonFormat) -> (r: Result<(), ManifestError>)
    ensures
        match json_of(Val::Obj(*o), cur_padding@, options@) {
            Ok(t) => r is Ok && final(buf)@ == old(buf)@ + t,
            Err(e) => r is Err && r->Err_0@ == e,
        },
    decreases o, 0nat,
{
    let ghost start = buf@;
    match &o.failed_assertion {
        Some(m) => {
            let e = ManifestError { kind: ErrorKind::ValidationFailed(m.clone()), trail: Vec::new() };
            assert(e@ =~= json_of(Val::Obj(*o), cur_padding@, options@)->Err_0);
            return Err(e);
        },
        None => {},
    }
    push_char(buf, '{');
    let mut inner = cur_padding.clone();
    inner.append(options.padding.as_str());
    let ghost ind = inner@;
    let ord = visible_fields(o, options.preserve_order);
    let mut k: usize = 0;
    while k < ord.len()
        invariant
            k <= ord@.len(),
            o.failed_assertion is None,
            ord@ == field_order(*o, options.preserve_order),
            forall|m: int| 0 <= m < ord@.len() ==> ord@[m] < o.fields.len(),
            inner@ == ind,
            ind == cur_padding@ + options.padding@,
            fields_json(o.fields, ord@, k as nat, ind, options@) is Ok,
            buf@ == start + seq!['{'] + fields_json(o.fields, ord@, k as nat, ind, options@)->Ok_0,
        decreases ord@.len() - k,
    {
        let j = ord[k];
        let field = &o.fields[j];
        match &field.value {
            Thunk::Failed(m) => {
                let mut trail: Vec<Frame> = Vec::new();
                trail.push(Frame::FieldEvaluation(field.key.clone()));
                let e = ManifestError { kind: ErrorKind::UpstreamEvaluationFailure(m.clone()), trail };
                proof {
                    assert(e@ =~= fields_json(o.fields, ord@, (k + 1) as nat, ind, options@)->Err_0);
                    lemma_fields_err_stays(o.fields, ord@, (k + 1) as nat, ord@.len(), ind, options@);
                    lemma_object_err(*o, cur_padding@, options@);
                }
                return Err(e);
            },
            Thunk::Ready(x) => {
                push_item_sep(buf, options.mtype, k, &options.newline, &inner);
                escape_string_json_buf(field.key.as_str(), buf);
                buf.append(options.key_val_sep.as_str());
                proof {
                    assert(decreases_to!(o.fields => o.fields[j as int]));
                }
                let res = manifest_json_ex_buf(x, buf, &inner, options);
                match res {
                    Err(mut e) => {
                        let ghost inner_err = e@;
                        e.trail.push(Frame::FieldManifestification(field.key.clone()));
                        proof {
                            assert(e@ =~= framed(inner_err, Frame::FieldManifestification(field.key)));
                            lemma_fields_err_stays(o.fields, ord@, (k + 1) as nat, ord@.len(), ind, options@);
                            lemma_object_err(*o, cur_padding@, options@);
                        }
                        return Err(e);
                    },
                    Ok(()) => {},
                }
            },
        }
        k = k + 1;
        assert(buf@ =~= start + seq!['{'] + fields_json(o.fields, ord@, k as nat, ind, options@)->Ok_0);
    }
    push_closing(buf, options.mtype, ord.len() > 0, &options.newline, cur_padding);
    push_char(buf, '}');
    assert(buf@ =~= start + json_of(Val::Obj(*o), cur_padding@, options@)->Ok_0);
    Ok(())
}

/// Appends the JSON text of `val` at indentation `cur_padding` to `buf`.
/// On failure, what `buf` holds is left unspecified.
pub fn manifest_json_ex_buf(val: &Val, buf: &mut String, cur_padding: &String, options: &JsonFormat) -> (r: Result<(), ManifestError>)
    ensures
        match json_of(*val, cur_padding@, options@) {
            Ok(t) => r is Ok && final(buf)@ == old(buf)@ + t,
            Err(e) => r is Err && r->Err_0@ == e,
        },
    decreases val, 1nat,
{
    let ghost start = buf@;
    match val {
        Val::Bool(b) => {
            if *b {
                buf.append("true");
            } else {
                buf.append("false");
            }
            proof {
                reveal_strlit("true");
                reveal_strlit("false");
            }
        },
        Val::Null => {
            buf.append("null");
            proof {
                reveal_strlit("null");
            }
        },
        Val::Str(s) => {
            let shown = truncated(s, options.debug_truncate_strings);
            escape_string_json_buf(shown.as_str(), buf);
        },
        Val::Num(t) => {
            buf.append(t.as_str());
        },
        Val::BigInt(d) => {
            if options.preserve_bigints {
                buf.append(d.as_str());
            } else {
                escape_string_json_buf(d.as_str(), buf);
            }
        },
        Val::Arr(items) => {
            return write_array(items, buf, cur_padding, options);
        },
        Val::Obj(o) => {
            return write_object(o, buf, cur_padding, options);
        },
        Val::Func(_) => {
            let e = ManifestError { kind: ErrorKind::FunctionNotManifestable, trail: Vec::new() };
            assert(e@ =~= json_of(*val, cur_padding@, options@)->Err_0);
            return Err(e);
        },
    }
    assert(buf@ =~= start + json_of(*val, cur_padding@, options@)->Ok_0);
    Ok(())
}

/// `n` spaces.
pub open spec fn spaces(n: nat) -> Seq<char> {
    Seq::new(n, |i: int| ' ')
}

/// The format that turns a value into text on one line.
pub open spec fn to_string_model() -> FormatModel {
    FormatModel {
        padding: Seq::empty(),
        mtype: JsonFormatting::ToString,
        newline: seq!['\n'],
        key_val_sep: seq![':', ' '],
        preserve_order: false,
        preserve_bigints: false,
        debug_truncate_strings: None,
    }
}

/// The minified format.
pub open spec fn minify_model(preserve_order: bool) -> FormatModel {
    FormatModel {
        padding: Seq::empty(),
        mtype: JsonFormatting::Minify,
        newline: seq!['\n'],
        key_val_sep: seq![':'],
        preserve_order,
        preserve_bigints: false,
        debug_truncate_strings: None,
    }
}

/// The format of a program's output, indented by `padding` spaces.
pub open spec fn manifest_model(padding: nat, preserve_order: bool) -> FormatModel {
    FormatModel {
        padding: spaces(padding),
        mtype: JsonFormatting::Manifest,
        newline: seq!['\n'],
        key_val_sep: seq![':', ' '],
        preserve_order,
        preserve_bigints: false,
        debug_truncate_strings: None,
    }
}

fn string_of(lit: &str) -> (r: String)
    ensures
        r@ == lit@,
{
    String::from_str(lit)
}

fn repeat_space(n: usize) -> (r: String)
    ensures
        r@ == spaces(n as nat),
{
    let mut r = String::new();
    let mut i: usize = 0;
    while i < n
        invariant
            i <= n,
            r@ == spaces(i as nat),
        decreases n - i,
    {
        push_char(&mut r, ' ');
        i = i + 1;
        assert(r@ =~= spaces(i as nat));
    }
    r
}

impl JsonFormat {
    /// No whitespace outside strings.
    pub fn minify(preserve_order: bool) -> (r: Self)
        ensures
            r@ == minify_model(preserve_order),
    {
        let r = JsonFormat {
            padding: String::new(),
            mtype: JsonFormatting::Minify,
            newline: string_of("\n"),
            key_val_sep: string_of(":"),
            preserve_order,
            preserve_bigints: false,
            debug_truncate_strings: None,
        };
        proof {
            reveal_strlit("\n");
            reveal_strlit(":");
        }
        assert(r@.newline =~= seq!['\n']);
        assert(r@.key_val_sep =~= seq![':']);
        r
    }

    /// One line, with `: ` between a key and its value and a space between
    /// items.
    pub fn std_to_string_helper() -> (r: Self)
        ensures
            r@ == to_string_model(),
    {
        let r = JsonFormat {
            padding: String::new(),
            mtype: JsonFormatting::ToString,
            newline: string_of("\n"),
            key_val_sep: string_of(": "),
            preserve_order: false,
            preserve_bigints: false,
            debug_truncate_strings: None,
        };
        proof {
            reveal_strlit("\n");
            reveal_strlit(": ");
        }
        assert(r@.newline =~= seq!['\n']);
        assert(r@.key_val_sep =~= seq![':', ' ']);
        r
    }

    /// The standard library's JSON, with whitespace chosen by the caller.
    pub fn std_to_json(padding: String, newline: &str, key_val_sep: &str, preserve_order: bool) -> (r: Self)
        ensures
            r@ == (FormatModel {
                padding: padding@,
                mtype: JsonFormatting::Std,
                newline: newline@,
                key_val_sep: key_val_sep@,
                preserve_order,
                preserve_bigints: false,
                debug_truncate_strings: None,
            }),
    {
        JsonFormat {
            padding,
            mtype: JsonFormatting::Std,
            newline: string_of(newline),
            key_val_sep: string_of(key_val_sep),
            preserve_order,
            preserve_bigints: false,
            debug_truncate_strings: None,
        }
    }

    /// A program's output, indented by `padding` spaces; with no padding it
    /// is minified.
    pub fn cli(padding: usize, preserve_order: bool) -> (r: Self)
        ensures
            padding == 0 ==> r@ == minify_model(preserve_order),
            padding > 0 ==> r@ == manifest_model(padding as nat, preserve_order),
    {
        if padding == 0 {
            return Self::minify(preserve_order);
        }
        let r = JsonFormat {
            padding: repeat_space(padding),
            mtype: JsonFormatting::Manifest,
            newline: string_of("\n"),
            key_val_sep: string_of(": "),
            preserve_order,
            preserve_bigints: false,
            debug_truncate_strings: None,
        };
        proof {
            reveal_strlit("\n");
            reveal_strlit(": ");
        }
        assert(r@.newline =~= seq!['\n']);
        assert(r@.key_val_sep =~= seq![':', ' ']);
        r
    }

    /// For diagnostics: three spaces of indentation, fields in insertion
    /// order, big integers as digits, strings past 256 characters cut.
    pub fn debug() -> (r: Self)
        ensures
            r@ == (FormatModel {
                padding: spaces(3),
                mtype: JsonFormatting::Manifest,
                newline: seq!['\n'],
                key_val_sep: seq![':', ' '],
                preserve_order: true,
                preserve_bigints: true,
                debug_truncate_strings: Some(256),
            }),
    {
        let r = JsonFormat {
            padding: repeat_space(3),
            mtype: JsonFormatting::Manifest,
            newline: string_of("\n"),
            key_val_sep: string_of(": "),
            preserve_order: true,
            preserve_bigints: true,
            debug_truncate_strings: Some(256),
        };
        proof {
            reveal_strlit("\n");
            reveal_strlit(": ");
        }
        assert(r@.newline =~= seq!['\n']);
        assert(r@.key_val_sep =~= seq![':', ' ']);
        r
    }
}

impl Default for JsonFormat {
    /// A program's output with four spaces of indentation.
    fn default() -> (r: Self)
        ensures
            r@ == manifest_model(4, false),
    {
        JsonFormat::cli(4, false)
    }
}

/// The JSON text of `val` under `options`.
pub fn manifest_json_ex(val: &Val, options: &JsonFormat) -> (r: Result<String, ManifestError>)
    ensures
        match json_of(*val, Seq::empty(), options@) {
            Ok(t) => r is Ok && r->Ok_0@ == t,
            Err(e) => r is Err && r->Err_0@ == e,
        },
{
    let mut out = String::new();
    let cur_padding = String::new();
    match manifest_json_ex_buf(val, &mut out, &cur_padding, options) {
        Ok(()) => Ok(out),
        Err(e) => Err(e),
    }
}

} // verus!
