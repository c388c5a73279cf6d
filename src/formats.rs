use vstd::prelude::*;
use vstd::string::*;

use crate::escape::push_char;
use crate::manifest::{
    framed, json_of, manifest_json_ex_buf, to_string_model, ErrorKind, ErrorModel, Frame,
    JsonFormat, ManifestError,
};
use crate::value::{Thunk, Val, ValType};

verus! {

/// A way of writing a value out as text.
pub trait ManifestFormat {
    /// The text written for `val`, or the error met first.
    spec fn output(&self, val: Val) -> Result<Seq<char>, ErrorModel>;

    /// Whether a newline may follow the text in a file without changing
    /// its meaning.
    spec fn trailing_newline_safe(&self) -> bool;

    /// Appends the text written for `val` to `buf`; on failure, what `buf`
    /// holds is left unspecified.
    fn manifest_buf(&self, val: &Val, buf: &mut String) -> (r: Result<(), ManifestError>)
        ensures
            match self.output(*val) {
                Ok(t) => r is Ok && final(buf)@ == old(buf)@ + t,
                Err(e) => r is Err && r->Err_0@ == e,
            },
    ;

    /// The text written for `val`.
    fn manifest(&self, val: &Val) -> (r: Result<String, ManifestError>)
        ensures
            match self.output(*val) {
                Ok(t) => r is Ok && r->Ok_0@ == t,
                Err(e) => r is Err && r->Err_0@ == e,
            },
    {
        let mut out = String::new();
        match self.manifest_buf(val, &mut out) {
            Ok(()) => Ok(out),
            Err(e) => Err(e),
        }
    }

    /// Whether a newline may follow the text in a file.
    fn file_trailing_newline(&self) -> (r: bool)
        ensures
            r == self.trailing_newline_safe(),
    ;
}

impl<T: ManifestFormat> ManifestFormat for Box<T> {
    open spec fn output(&self, val: Val) -> Result<Seq<char>, ErrorModel> {
        (**self).output(val)
    }

    open spec fn trailing_newline_safe(&self) -> bool {
        (**self).trailing_newline_safe()
    }

    fn manifest_buf(&self, val: &Val, buf: &mut String) -> (r: Result<(), ManifestError>) {
        let inner: &T = &**self;
        inner.manifest_buf(val, buf)
    }

    fn file_trailing_newline(&self) -> (r: bool) {
        let inner: &T = &**self;
        inner.file_trailing_newline()
    }
}

impl<'a, T: ManifestFormat> ManifestFormat for &'a T {
    open spec fn output(&self, val: Val) -> Result<Seq<char>, ErrorModel> {
        (**self).output(val)
    }

    open spec fn trailing_newline_safe(&self) -> bool {
        (**self).trailing_newline_safe()
    }

    fn manifest_buf(&self, val: &Val, buf: &mut String) -> (r: Result<(), ManifestError>) {
        let inner: &T = &**self;
        inner.manifest_buf(val, buf)
    }

    fn file_trailing_newline(&self) -> (r: bool) {
        let inner: &T = &**self;
        inner.file_trailing_newline()
    }
}

impl ManifestFormat for JsonFormat {
    open spec fn output(&self, val: Val) -> Result<Seq<char>, ErrorModel> {
        json_of(val, Seq::empty(), self@)
    }

    open spec fn trailing_newline_safe(&self) -> bool {
        true
    }

    fn manifest_buf(&self, val: &Val, buf: &mut String) -> (r: Result<(), ManifestError>) {
        let cur_padding = String::new();
        manifest_json_ex_buf(val, buf, &cur_padding, self)
    }

    fn file_trailing_newline(&self) -> (r: bool) {
        true
    }
}

/// A string at the root is written as it is; any other value as JSON on one
/// line.
pub struct ToStringFormat;

impl ManifestFormat for ToStringFormat {
    open spec fn output(&self, val: Val) -> Result<Seq<char>, ErrorModel> {
        match val {
            Val::Str(s) => Ok(s@),
            _ => json_of(val, Seq::empty(), to_string_model()),
        }
    }

    open spec fn trailing_newline_safe(&self) -> bool {
        false
    }

    fn manifest_buf(&self, val: &Val, buf: &mut String) -> (r: Result<(), ManifestError>) {
        if let Val::Str(s) = val {
            buf.append(s.as_str());
            return Ok(());
        }
        let format = JsonFormat::std_to_string_helper();
        format.manifest_buf(val, buf)
    }

    fn file_trailing_newline(&self) -> (r: bool) {
        false
    }
}

/// The root must be a string, which is written as it is.
pub struct StringFormat;

impl ManifestFormat for StringFormat {
    open spec fn output(&self, val: Val) -> Result<Seq<char>, ErrorModel> {
        match val {
            Val::Str(s) => Ok(s@),
            _ => Err((ErrorKind::TypeMismatch { expected: ValType::Str, actual: val.kind() }, Seq::empty())),
        }
    }

    open spec fn trailing_newline_safe(&self) -> bool {
        false
    }

    fn manifest_buf(&self, val: &Val, buf: &mut String) -> (r: Result<(), ManifestError>) {
        match val {
            Val::Str(s) => {
                buf.append(s.as_str());
                Ok(())
            },
            _ => {
                let e = ManifestError {
                    kind: ErrorKind::TypeMismatch { expected: ValType::Str, actual: val.value_type() },
                    trail: Vec::new(),
                };
                assert(e@ =~= self.output(*val)->Err_0);
                Err(e)
            },
        }
    }

    fn file_trailing_newline(&self) -> (r: bool) {
        false
    }
}

/// The root must be an array; each item becomes one document, written by
/// `inner` after a `---` line.
pub struct YamlStreamFormat<I> {
    pub inner: I,
    pub c_document_end: bool,
    pub end_newline: bool,
}

/// The documents for the first `n` items.
pub open spec fn documents<I: ManifestFormat>(inner: I, items: Seq<Thunk>, n: nat) -> Result<Seq<char>, ErrorModel>
    decreases n,
{
    if n == 0 || n > items.len() {
        Ok(Seq::empty())
    } else {
        match documents(inner, items, (n - 1) as nat) {
            Err(e) => Err(e),
            Ok(pre) => match items[n - 1] {
                Thunk::Failed(m) => Err((ErrorKind::UpstreamEvaluationFailure(m), seq![Frame::ElemEvaluation((n - 1) as usize)])),
                Thunk::Ready(x) => match inner.output(x) {
                    Err(e) => Err(framed(e, Frame::ElemManifestification((n - 1) as usize))),
                    Ok(t) => Ok(pre + seq!['-', '-', '-', '\n'] + t + seq!['\n']),
                },
            },
        }
    }
}

proof fn lemma_documents_err_stays<I: ManifestFormat>(inner: I, items: Seq<Thunk>, k: nat, n: nat)
    requires
        k <= n <= items.len(),
        documents(inner, items, k) is Err,
    ensures
        documents(inner, items, n) == documents(inner, items, k),
    decreases n - k,
{
    if k < n {
        lemma_documents_err_stays(inner, items, k, (n - 1) as nat);
    }
}

impl<I> YamlStreamFormat<I> {
    /// The library's stream: the end marker as asked, and a final newline.
    pub fn std_yaml_stream(inner: I, c_document_end: bool) -> (r: Self)
        ensures
            r.inner == inner,
            r.c_document_end == c_document_end,
            r.end_newline,
    {
        YamlStreamFormat { inner, c_document_end, end_newline: true }
    }

    /// A program's stream: the end marker, and no final newline.
    pub fn cli(inner: I) -> (r: Self)
        ensures
            r.inner == inner,
            r.c_document_end,
            !r.end_newline,
    {
        YamlStreamFormat { inner, c_document_end: true, end_newline: false }
    }
}

impl<I: ManifestFormat> ManifestFormat for YamlStreamFormat<I> {
    open spec fn output(&self, val: Val) -> Result<Seq<char>, ErrorModel> {
        match val {
            Val::Arr(items) => match documents(self.inner, items@, items.len() as nat) {
                Ok(body) => Ok(body + (if self.c_document_end { seq!['.', '.', '.'] } else { Seq::empty() }) + (
                if self.end_newline {
                    seq!['\n']
                } else {
                    Seq::empty()
                })),
                Err(e) => Err(e),
            },
            _ => Err((ErrorKind::TypeMismatch { expected: ValType::Arr, actual: val.kind() }, Seq::empty())),
        }
    }

    open spec fn trailing_newline_safe(&self) -> bool {
        true
    }

    fn manifest_buf(&self, val: &Val, buf: &mut String) -> (r: Result<(), ManifestError>) {
        let items = match val {
            Val::Arr(items) => items,
            _ => {
                let e = ManifestError {
                    kind: ErrorKind::TypeMismatch { expected: ValType::Arr, actual: val.value_type() },
                    trail: Vec::new(),
                };
                assert(e@ =~= self.output(*val)->Err_0);
                return Err(e);
            },
        };
        let ghost start = buf@;
        let mut i: usize = 0;
        while i < items.len()
            invariant
                i <= items.len(),
                *val == Val::Arr(*items),
                documents(self.inner, items@, i as nat) is Ok,
                buf@ == start + documents(self.inner, items@, i as nat)->Ok_0,
            decreases items.len() - i,
        {
            match &items[i] {
                Thunk::Failed(m) => {
                    let mut trail: Vec<Frame> = Vec::new();
                    trail.push(Frame::ElemEvaluation(i));
                    let e = ManifestError { kind: ErrorKind::UpstreamEvaluationFailure(m.clone()), trail };
                    proof {
                        assert(e@ =~= documents(self.inner, items@, (i + 1) as nat)->Err_0);
                        lemma_documents_err_stays(self.inner, items@, (i + 1) as nat, items.len() as nat);
                    }
                    return Err(e);
                },
                Thunk::Ready(x) => {
                    push_char(buf, '-');
                    push_char(buf, '-');
                    push_char(buf, '-');
                    push_char(buf, '\n');
                    match self.inner.manifest_buf(x, buf) {
                        Err(mut e) => {
                            let ghost inner_err = e@;
                            e.trail.push(Frame::ElemManifestification(i));
                            proof {
                                assert(e@ =~= framed(inner_err, Frame::ElemManifestification(i)));
                                lemma_documents_err_stays(self.inner, items@, (i + 1) as nat, items.len() as nat);
                            }
                            return Err(e);
                        },
                        Ok(()) => {},
                    }
                    push_char(buf, '\n');
                },
            }
            i = i + 1;
            assert(buf@ =~= start + documents(self.inner, items@, i as nat)->Ok_0);
        }
        if self.c_document_end {
            push_char(buf, '.');
            push_char(buf, '.');
            push_char(buf, '.');
        }
        if self.end_newline {
            push_char(buf, '\n');
        }
        assert(buf@ =~= start + self.output(*val)->Ok_0);
        Ok(())
    }

    fn file_trailing_newline(&self) -> (r: bool) {
        true
    }
}

} // verus!
