use vstd::prelude::*;

use crate::escape::{escape_body, escape_char, escaped, hex_digit};
use crate::formats::{ManifestFormat, StringFormat, YamlStreamFormat};
use crate::manifest::{
    field_order, fields_json, first_indices, items_json, visible_only, json_of, shown_text, ErrorKind, ErrorModel, FormatModel,
    JsonFormatting,
};
use crate::value::ObjField;
use crate::value::{ObjValue, Thunk, Val, ValType};

verus! {

/// Escaping text piece by piece gives the escaping of the whole.
pub proof fn lemma_escape_body_concat(a: Seq<char>, b: Seq<char>)
    ensures
        escape_body(a + b) == escape_body(a) + escape_body(b),
    decreases b.len(),
{
    if b.len() == 0 {
        assert(a + b =~= a);
        assert(escape_body(a) + escape_body(b) =~= escape_body(a));
    } else {
        lemma_escape_body_concat(a, b.drop_last());
        assert((a + b).drop_last() =~= a + b.drop_last());
        assert((a + b).last() == b.last());
        assert(escape_body(a + b) =~= escape_body(a) + escape_body(b));
    }
}

/// The value of a lowercase hexadecimal digit.
pub open spec fn hex_value(c: char) -> u32 {
    if '0' <= c && c <= '9' {
        ((c as u32) - 48) as u32
    } else {
        ((c as u32) - 87) as u32
    }
}

/// Standard JSON decoding of the inside of a string literal.
pub open spec fn json_unescape(s: Seq<char>) -> Seq<char>
    decreases s.len(),
{
    if s.len() == 0 {
        Seq::empty()
    } else if s[0] == '\\' && s.len() >= 2 {
        let e = s[1];
        if e == 'u' && s.len() >= 6 {
            let code = hex_value(s[2]) * 4096 + hex_value(s[3]) * 256 + hex_value(s[4]) * 16 + hex_value(s[5]);
            seq![(code as u8) as char] + json_unescape(s.subrange(6, s.len() as int))
        } else {
            let c = if e == 'b' {
                '\u{8}'
            } else if e == 't' {
                '\t'
            } else if e == 'n' {
                '\n'
            } else if e == 'f' {
                '\u{c}'
            } else if e == 'r' {
                '\r'
            } else {
                e
            };
            seq![c] + json_unescape(s.subrange(2, s.len() as int))
        }
    } else {
        seq![s[0]] + json_unescape(s.subrange(1, s.len() as int))
    }
}

proof fn lemma_unescape_one(c: char, rest: Seq<char>)
    ensures
        json_unescape(escape_char(c) + rest) == seq![c] + json_unescape(rest),
{
    let s = escape_char(c) + rest;
    let n = escape_char(c).len();
    assert(s.subrange(n as int, s.len() as int) =~= rest);
    if (c as u32) < 0x20 && c != '\u{8}' && c != '\t' && c != '\n' && c != '\u{c}' && c != '\r' {
        let v = c as u32;
        assert(hex_value(hex_digit(v / 16)) == v / 16);
        assert(hex_value(hex_digit(v % 16)) == v % 16);
        assert(hex_value('0') == 0);
        assert(((v as u8) as char) == c);
    }
}

/// Decoding the escaped text of `t`, followed by anything, gives back `t`
/// first.
pub proof fn lemma_unescape_escape_prefix(t: Seq<char>, rest: Seq<char>)
    ensures
        json_unescape(escape_body(t) + rest) == t + json_unescape(rest),
    decreases t.len(),
{
    if t.len() == 0 {
        assert(escape_body(t) + rest =~= rest);
        assert(t + json_unescape(rest) =~= json_unescape(rest));
    } else {
        let init = t.drop_last();
        let c = t.last();
        lemma_unescape_one(c, rest);
        lemma_unescape_escape_prefix(init, escape_char(c) + rest);
        assert(escape_body(t) + rest =~= escape_body(init) + (escape_char(c) + rest));
        assert(init + (seq![c] + json_unescape(rest)) =~= t + json_unescape(rest));
    }
}

/// JSON decoding inverts escaping: the inside of the literal written for any
/// text decodes to that text.
pub proof fn lemma_escape_round_trip(t: Seq<char>)
    ensures
        escaped(t) == seq!['"'] + escape_body(t) + seq!['"'],
        json_unescape(escape_body(t)) == t,
{
    lemma_unescape_escape_prefix(t, Seq::empty());
    assert(escape_body(t) + Seq::<char>::empty() =~= escape_body(t));
    assert(t + json_unescape(Seq::empty()) =~= t);
}

/// Characters from U+0020 up, but for the quote and the backslash, are
/// written as they are; the control characters and those two are escaped as
/// JSON names them.
pub proof fn lemma_escape_chars(c: char)
    ensures
        (c as u32) >= 0x20 && c != '"' && c != '\\' ==> escape_char(c) == seq![c],
        escape_char('\0') == seq!['\\', 'u', '0', '0', '0', '0'],
        escape_char('\n') == seq!['\\', 'n'],
        escape_char('"') == seq!['\\', '"'],
        escape_char('\\') == seq!['\\', '\\'],
{
    assert(hex_digit(0) == '0');
}

/// An empty array is written as `[]` minified, `[ ]` on one line or as a
/// program's output, and as `[`, two newlines, the indentation and `]` in
/// the standard library's JSON.
pub proof fn lemma_empty_array(items: Vec<Thunk>, indent: Seq<char>, f: FormatModel)
    requires
        items.len() == 0,
    ensures
        f.mtype == JsonFormatting::Minify ==> json_of(Val::Arr(items), indent, f) == Ok::<Seq<char>, ErrorModel>(seq!['[', ']']),
        f.mtype == JsonFormatting::ToString || f.mtype == JsonFormatting::Manifest ==> json_of(Val::Arr(items), indent, f) == Ok::<Seq<char>, ErrorModel>(seq!['[', ' ', ']']),
        f.mtype == JsonFormatting::Std ==> json_of(Val::Arr(items), indent, f) == Ok::<Seq<char>, ErrorModel>(seq!['['] + f.newline + f.newline + indent + seq![']']),
{
    let r = json_of(Val::Arr(items), indent, f);
    assert(r is Ok);
    if f.mtype == JsonFormatting::Minify {
        assert(r->Ok_0 =~= seq!['[', ']']);
    } else if f.mtype == JsonFormatting::Std {
        assert(r->Ok_0 =~= seq!['['] + f.newline + f.newline + indent + seq![']']);
    } else if f.mtype == JsonFormatting::ToString || f.mtype == JsonFormatting::Manifest {
        assert(r->Ok_0 =~= seq!['[', ' ', ']']);
    }
}

/// An object with no visible field and no failed validation is written as
/// `{}`, `{ }` or `{`, two newlines, the indentation and `}`, as an empty
/// array is.
pub proof fn lemma_empty_object(o: ObjValue, indent: Seq<char>, f: FormatModel)
    requires
        o.fields.len() == 0,
        o.failed_assertion is None,
    ensures
        f.mtype == JsonFormatting::Minify ==> json_of(Val::Obj(o), indent, f) == Ok::<Seq<char>, ErrorModel>(seq!['{', '}']),
        f.mtype == JsonFormatting::ToString || f.mtype == JsonFormatting::Manifest ==> json_of(Val::Obj(o), indent, f) == Ok::<Seq<char>, ErrorModel>(seq!['{', ' ', '}']),
        f.mtype == JsonFormatting::Std ==> json_of(Val::Obj(o), indent, f) == Ok::<Seq<char>, ErrorModel>(seq!['{'] + f.newline + f.newline + indent + seq!['}']),
{
    crate::manifest::lemma_no_fields_no_order(o, f.preserve_order);
    let r = json_of(Val::Obj(o), indent, f);
    assert(r is Ok);
    if f.mtype == JsonFormatting::Minify {
        assert(r->Ok_0 =~= seq!['{', '}']);
    } else if f.mtype == JsonFormatting::Std {
        assert(r->Ok_0 =~= seq!['{'] + f.newline + f.newline + indent + seq!['}']);
    } else if f.mtype == JsonFormatting::ToString || f.mtype == JsonFormatting::Manifest {
        assert(r->Ok_0 =~= seq!['{', ' ', '}']);
    }
}

/// Past a truncation limit `l`, a string is written as the escaping of its
/// first `l / 2` characters, then `..`, then the escaping of its last
/// `l / 2` characters, all in quotes.
pub proof fn lemma_truncation(s: String, l: usize, indent: Seq<char>, f: FormatModel)
    requires
        f.debug_truncate_strings == Some(l),
        s@.len() > l,
    ensures
        json_of(Val::Str(s), indent, f) == Ok::<Seq<char>, ErrorModel>(seq!['"'] + escape_body(s@.subrange(0, (l / 2) as int)) + seq!['.', '.']
            + escape_body(s@.subrange(s@.len() - (l / 2) as int, s@.len() as int)) + seq!['"']),
{
    let a = s@.subrange(0, (l / 2) as int);
    let b = s@.subrange(s@.len() - (l / 2) as int, s@.len() as int);
    lemma_escape_body_concat(a, seq!['.', '.']);
    lemma_escape_body_concat(a + seq!['.', '.'], b);
    let dots = seq!['.', '.'];
    assert(dots.drop_last() =~= seq!['.']);
    assert(seq!['.'].drop_last() =~= Seq::<char>::empty());
    assert(escape_char('.') == seq!['.']);
    assert(escape_body(seq!['.']) =~= escape_body(Seq::<char>::empty()) + escape_char('.'));
    assert(escape_body(seq!['.']) =~= seq!['.']);
    assert(escape_body(dots) =~= escape_body(seq!['.']) + escape_char('.'));
    assert(escape_body(dots) =~= dots);
    assert(shown_text(s@, Some(l)) == a + seq!['.', '.'] + b);
    assert(escaped(a + seq!['.', '.'] + b) =~= seq!['"'] + escape_body(a) + seq!['.', '.'] + escape_body(b) + seq!['"']);
}

/// A function value fails to be written, at the root, in every dialect.
pub proof fn lemma_function_fails(v: Val, indent: Seq<char>, f: FormatModel)
    requires
        v is Func,
    ensures
        json_of(v, indent, f) is Err,
        json_of(v, indent, f)->Err_0.0 == ErrorKind::FunctionNotManifestable,
{
}

/// The strict string format fails on any root that is not a string, naming
/// its kind.
pub proof fn lemma_string_format_mismatch(v: Val)
    requires
        !(v is Str),
    ensures
        StringFormat.output(v) is Err,
        StringFormat.output(v)->Err_0.0 == (ErrorKind::TypeMismatch { expected: ValType::Str, actual: v.kind() }),
{
}

/// The document stream fails on any root that is not an array, naming its
/// kind, whatever format writes its documents.
pub proof fn lemma_stream_mismatch<I: ManifestFormat>(s: YamlStreamFormat<I>, v: Val)
    requires
        !(v is Arr),
    ensures
        s.output(v) is Err,
        s.output(v)->Err_0.0 == (ErrorKind::TypeMismatch { expected: ValType::Arr, actual: v.kind() }),
{
}

/// Whether nothing in `v` can fail but a function value: every slot is
/// ready and no object has a failed validation.
pub open spec fn clean(v: Val) -> bool
    decreases v,
{
    match v {
        Val::Arr(items) => clean_items(items, items.len() as nat),
        Val::Obj(o) => o.failed_assertion is None && clean_fields(o.fields, o.fields.len() as nat),
        _ => true,
    }
}

/// Whether the first `n` items are ready and clean.
pub open spec fn clean_items(items: Vec<Thunk>, n: nat) -> bool
    decreases items, n,
{
    if n == 0 || n > items.len() {
        true
    } else {
        clean_items(items, (n - 1) as nat) && match items[n - 1] {
            Thunk::Ready(x) => clean(x),
            Thunk::Failed(_) => false,
        }
    }
}

/// Whether the first `n` fields are ready and clean.
pub open spec fn clean_fields(fields: Vec<ObjField>, n: nat) -> bool
    decreases fields, n,
{
    if n == 0 || n > fields.len() {
        true
    } else {
        clean_fields(fields, (n - 1) as nat) && match fields[n - 1].value {
            Thunk::Ready(x) => clean(x),
            Thunk::Failed(_) => false,
        }
    }
}

proof fn lemma_clean_field(fields: Vec<ObjField>, n: nat, j: int)
    requires
        clean_fields(fields, n),
        n <= fields.len(),
        0 <= j < n,
    ensures
        fields[j].value is Ready,
        clean(fields[j].value->Ready_0),
    decreases n,
{
    if j < n - 1 {
        lemma_clean_field(fields, (n - 1) as nat, j);
    }
}

/// In a clean tree, the only way to fail is a function value, wherever it
/// stands.
pub proof fn lemma_clean_fails_on_function(v: Val, indent: Seq<char>, f: FormatModel)
    requires
        clean(v),
        json_of(v, indent, f) is Err,
    ensures
        json_of(v, indent, f)->Err_0.0 == ErrorKind::FunctionNotManifestable,
    decreases v, 1nat,
{
    match v {
        Val::Arr(items) => {
            lemma_clean_items_fail(items, items.len() as nat, indent + f.padding, f);
        },
        Val::Obj(o) => {
            let ord = field_order(o, f.preserve_order);
            lemma_clean_fields_fail(o.fields, ord, ord.len(), indent + f.padding, f);
        },
        _ => {},
    }
}

proof fn lemma_clean_items_fail(items: Vec<Thunk>, n: nat, indent: Seq<char>, f: FormatModel)
    requires
        clean_items(items, n),
        items_json(items, n, indent, f) is Err,
    ensures
        items_json(items, n, indent, f)->Err_0.0 == ErrorKind::FunctionNotManifestable,
    decreases items, n,
{
    if items_json(items, (n - 1) as nat, indent, f) is Err {
        lemma_clean_items_fail(items, (n - 1) as nat, indent, f);
    } else {
        lemma_clean_fails_on_function(items[n - 1]->Ready_0, indent, f);
    }
}

proof fn lemma_clean_fields_fail(fields: Vec<ObjField>, ord: Seq<usize>, n: nat, indent: Seq<char>, f: FormatModel)
    requires
        clean_fields(fields, fields.len() as nat),
        fields_json(fields, ord, n, indent, f) is Err,
    ensures
        fields_json(fields, ord, n, indent, f)->Err_0.0 == ErrorKind::FunctionNotManifestable,
    decreases fields, n,
{
    if fields_json(fields, ord, (n - 1) as nat, indent, f) is Err {
        lemma_clean_fields_fail(fields, ord, (n - 1) as nat, indent, f);
    } else {
        let j = ord[n - 1] as int;
        lemma_clean_field(fields, fields.len() as nat, j);
        lemma_clean_fails_on_function(fields[j].value->Ready_0, indent, f);
    }
}

/// An array fails when one of its items fails to be written: a function
/// nested at any depth of arrays makes every enclosing array fail.
pub proof fn lemma_failing_item_fails_array(items: Vec<Thunk>, i: int, indent: Seq<char>, f: FormatModel)
    requires
        0 <= i < items.len(),
        items[i] is Ready,
        json_of(items[i]->Ready_0, indent + f.padding, f) is Err,
    ensures
        json_of(Val::Arr(items), indent, f) is Err,
{
    let ind = indent + f.padding;
    assert(items_json(items, (i + 1) as nat, ind, f) is Err);
    crate::manifest::lemma_items_err_stays(items, (i + 1) as nat, items.len() as nat, ind, f);
}

proof fn lemma_visible_found(fields: Seq<ObjField>, ids: Seq<usize>, p: int) -> (k: int)
    requires
        0 <= p < ids.len(),
        ids[p] < fields.len(),
        fields[ids[p] as int].visible,
    ensures
        0 <= k < visible_only(fields, ids).len(),
        visible_only(fields, ids)[k] == ids[p],
    decreases ids.len(),
{
    let rest = visible_only(fields, ids.drop_last());
    if p == ids.len() - 1 {
        rest.len() as int
    } else {
        lemma_visible_found(fields, ids.drop_last(), p)
    }
}

/// An object whose fields go out in insertion order fails when one of its
/// visible fields fails to be written: with arrays, a function nested at any
/// depth makes every enclosing container fail.
pub proof fn lemma_failing_field_fails_object(o: ObjValue, j: int, indent: Seq<char>, f: FormatModel)
    requires
        f.preserve_order,
        0 <= j < o.fields.len(),
        o.fields[j].visible,
        o.fields[j].value is Ready,
        json_of(o.fields[j].value->Ready_0, indent + f.padding, f) is Err,
    ensures
        json_of(Val::Obj(o), indent, f) is Err,
{
    if o.failed_assertion is None {
        let ind = indent + f.padding;
        let ids = first_indices(o.fields.len() as nat);
        let ord = field_order(o, true);
        let k = lemma_visible_found(o.fields@, ids, j);
        assert(ord[k] == j);
        assert(fields_json(o.fields, ord, (k + 1) as nat, ind, f) is Err);
        crate::manifest::lemma_fields_err_stays(o.fields, ord, (k + 1) as nat, ord.len(), ind, f);
    }
}

} // verus!
