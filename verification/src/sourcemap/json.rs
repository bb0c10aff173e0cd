use crate::error::ParseError;
use crate::error::ParseResult;
use crate::sourcemap::raw::RawDocData;
use crate::sourcemap::raw::RawFieldsData;
use crate::sourcemap::raw::RawSection;
use crate::sourcemap::raw::RawSectionData;
use crate::sourcemap::raw::RawSectionOffset;
use crate::sourcemap::raw::RawSourceMap;
use crate::sourcemap::raw::raw_doc_view;
use crate::sourcemap::raw::raw_fields_view;
use crate::sourcemap::raw::raw_section_view;
use crate::sourcemap::raw::raw_sections_view;
use vstd::prelude::*;
use vstd::string::StringExecFns;

verus! {

/// Declares simd_json's owned DOM value so that signatures may carry it;
/// the value stays opaque and is only read through the helpers below.
#[verifier::external_type_specification]
#[verifier::external_body]
pub struct ExOwnedValue(simd_json::OwnedValue);

/// A JSON document, as a mathematical value: the abstraction the helpers
/// below read the opaque parsed value through. Numbers keep the reader's
/// split into unsigned, signed and floating-point; nothing in a source map
/// reads a float, so its value is not carried.
pub ghost enum JsonDoc {
    Null,
    Bool(bool),
    UInt(u64),
    Int(i64),
    Float,
    Str(Seq<char>),
    Arr(Seq<JsonDoc>),
    Obj(Map<Seq<char>, JsonDoc>),
}

/// The document a parsed value denotes: a function of the value alone. The
/// helpers below say what each read returns over this model.
pub uninterp spec fn json_model(v: &simd_json::OwnedValue) -> JsonDoc;

/// What parsing a byte buffer as JSON yields: the document when the bytes
/// are well-formed JSON, None otherwise; a function of the bytes alone.
/// `parse_json`'s contract applies it.
pub uninterp spec fn parsed_doc(bytes: Seq<u8>) -> Option<JsonDoc>;

/// A document read as a non-negative 64-bit number.
pub open spec fn doc_as_u64(d: JsonDoc) -> Option<u64> {
    match d {
        JsonDoc::UInt(n) => Some(n),
        JsonDoc::Int(i) => if i >= 0 {
            Some(i as u64)
        } else {
            None
        },
        _ => None,
    }
}

/// A document read as a string.
pub open spec fn doc_as_str(d: JsonDoc) -> Option<Seq<char>> {
    match d {
        JsonDoc::Str(s) => Some(s),
        _ => None,
    }
}

/// The value under a key, when the document is an object holding it.
pub open spec fn doc_get(d: JsonDoc, key: Seq<char>) -> Option<JsonDoc> {
    match d {
        JsonDoc::Obj(m) => if m.contains_key(key) {
            Some(m[key])
        } else {
            None
        },
        _ => None,
    }
}

/// Relies on simd_json::to_owned_value: parses a JSON document into a value
/// tree, de-escaping strings in place, or reports a syntax error; the
/// outcome depends on the bytes alone.
#[verifier::external_body]
pub(crate) fn parse_json(bytes: &mut Vec<u8>) -> (r: Result<simd_json::OwnedValue, String>)
    ensures
        match r {
            Ok(v) => parsed_doc(old(bytes)@) == Some(json_model(&v)),
            Err(_) => parsed_doc(old(bytes)@) is None,
        },
{
    match simd_json::to_owned_value(bytes) {
        Ok(v) => Ok(v),
        Err(e) => Err(format!("{}", e)),
    }
}

/// Relies on the shape of simd_json's owned value: an object or not.
#[verifier::external_body]
fn json_is_object(v: &simd_json::OwnedValue) -> (r: bool)
    ensures
        r == (json_model(v) is Obj),
{
    match v {
        simd_json::OwnedValue::Object(_) => true,
        _ => false,
    }
}

/// Relies on halfbrown's map lookup behind simd_json objects: the value
/// under a key, if the value is an object holding it.
#[verifier::external_body]
fn json_get<'a>(v: &'a simd_json::OwnedValue, key: &str) -> (r: Option<
    &'a simd_json::OwnedValue,
>)
    ensures
        match r {
            Some(x) => doc_get(json_model(v), key@) == Some(json_model(x)),
            None => doc_get(json_model(v), key@) is None,
        },
{
    match v {
        simd_json::OwnedValue::Object(m) => m.get(key),
        _ => None,
    }
}

/// Relies on the shape of simd_json's owned value: the JSON null.
#[verifier::external_body]
fn json_is_null(v: &simd_json::OwnedValue) -> (r: bool)
    ensures
        r == (json_model(v) is Null),
{
    match v {
        simd_json::OwnedValue::Static(simd_json::StaticNode::Null) => true,
        _ => false,
    }
}

/// Relies on the shape of simd_json's owned value: a non-negative JSON
/// number, as a u64.
#[verifier::external_body]
fn json_as_u64(v: &simd_json::OwnedValue) -> (r: Option<u64>)
    ensures
        r == doc_as_u64(json_model(v)),
{
    match v {
        simd_json::OwnedValue::Static(simd_json::StaticNode::U64(n)) => Some(*n),
        simd_json::OwnedValue::Static(simd_json::StaticNode::I64(n)) => u64::try_from(*n).ok(),
        _ => None,
    }
}

/// Relies on the shape of simd_json's owned value: a JSON string, copied.
#[verifier::external_body]
fn json_as_string(v: &simd_json::OwnedValue) -> (r: Option<String>)
    ensures
        match r {
            Some(s) => doc_as_str(json_model(v)) == Some(s@),
            None => doc_as_str(json_model(v)) is None,
        },
{
    match v {
        simd_json::OwnedValue::String(s) => Some(s.clone()),
        _ => None,
    }
}

/// Relies on the shape of simd_json's owned value: an array's length.
#[verifier::external_body]
fn json_array_len(v: &simd_json::OwnedValue) -> (r: Option<usize>)
    ensures
        match json_model(v) {
            JsonDoc::Arr(a) => r matches Some(n) && n == a.len(),
            _ => r is None,
        },
{
    match v {
        simd_json::OwnedValue::Array(a) => Some(a.len()),
        _ => None,
    }
}

/// Relies on Vec::get behind simd_json arrays: the element at an index.
#[verifier::external_body]
fn json_array_get<'a>(v: &'a simd_json::OwnedValue, i: usize) -> (r: Option<
    &'a simd_json::OwnedValue,
>)
    ensures
        match json_model(v) {
            JsonDoc::Arr(a) => {
                &&& i < a.len() ==> (r matches Some(x) && json_model(x) == a[i as int])
                &&& i >= a.len() ==> r is None
            },
            _ => r is None,
        },
{
    match v {
        simd_json::OwnedValue::Array(a) => a.get(i),
        _ => None,
    }
}


/// Reading an optional unsigned 32-bit field: absent or null is None, a
/// fitting number is its value, anything else is a shape error.
pub open spec fn doc_opt_u32(d: JsonDoc, key: Seq<char>) -> Result<Option<u32>, ()> {
    match doc_get(d, key) {
        None => Ok(None),
        Some(x) => if x is Null {
            Ok(None)
        } else {
            match doc_as_u64(x) {
                Some(n) => if n <= u32::MAX {
                    Ok(Some(n as u32))
                } else {
                    Err(())
                },
                None => Err(()),
            }
        },
    }
}

/// Reading an optional string field.
pub open spec fn doc_opt_string(d: JsonDoc, key: Seq<char>) -> Result<Option<Seq<char>>, ()> {
    match doc_get(d, key) {
        None => Ok(None),
        Some(x) => if x is Null {
            Ok(None)
        } else {
            match doc_as_str(x) {
                Some(s) => Ok(Some(s)),
                None => Err(()),
            }
        },
    }
}

/// Reading an array's elements as strings, from index `i`.
pub open spec fn doc_str_items(a: Seq<JsonDoc>, i: int) -> Result<Seq<Seq<char>>, ()>
    decreases a.len() - i,
{
    if i < 0 || i >= a.len() {
        Ok(Seq::empty())
    } else {
        match doc_as_str(a[i]) {
            Some(s) => match doc_str_items(a, i + 1) {
                Ok(rest) => Ok(seq![s] + rest),
                Err(u) => Err(u),
            },
            None => Err(()),
        }
    }
}

/// Reading an optional array-of-strings field.
pub open spec fn doc_opt_string_list(d: JsonDoc, key: Seq<char>) -> Result<
    Option<Seq<Seq<char>>>,
    (),
> {
    match doc_get(d, key) {
        None => Ok(None),
        Some(x) => if x is Null {
            Ok(None)
        } else {
            match x {
                JsonDoc::Arr(a) => match doc_str_items(a, 0) {
                    Ok(items) => Ok(Some(items)),
                    Err(u) => Err(u),
                },
                _ => Err(()),
            }
        },
    }
}

/// Reading an array's elements as nullable strings, from index `i`.
pub open spec fn doc_opt_str_items(a: Seq<JsonDoc>, i: int) -> Result<
    Seq<Option<Seq<char>>>,
    (),
>
    decreases a.len() - i,
{
    if i < 0 || i >= a.len() {
        Ok(Seq::empty())
    } else {
        let item = if a[i] is Null {
            Some(None)
        } else {
            match doc_as_str(a[i]) {
                Some(s) => Some(Some(s)),
                None => None,
            }
        };
        match item {
            Some(it) => match doc_opt_str_items(a, i + 1) {
                Ok(rest) => Ok(seq![it] + rest),
                Err(u) => Err(u),
            },
            None => Err(()),
        }
    }
}

/// Reading an optional array-of-nullable-strings field.
pub open spec fn doc_opt_opt_string_list(d: JsonDoc, key: Seq<char>) -> Result<
    Option<Seq<Option<Seq<char>>>>,
    (),
> {
    match doc_get(d, key) {
        None => Ok(None),
        Some(x) => if x is Null {
            Ok(None)
        } else {
            match x {
                JsonDoc::Arr(a) => match doc_opt_str_items(a, 0) {
                    Ok(items) => Ok(Some(items)),
                    Err(u) => Err(u),
                },
                _ => Err(()),
            }
        },
    }
}

/// Reading an array's elements as unsigned 32-bit numbers, from index `i`.
pub open spec fn doc_u32_items(a: Seq<JsonDoc>, i: int) -> Result<Seq<u32>, ()>
    decreases a.len() - i,
{
    if i < 0 || i >= a.len() {
        Ok(Seq::empty())
    } else {
        match doc_as_u64(a[i]) {
            Some(n) => if n <= u32::MAX {
                match doc_u32_items(a, i + 1) {
                    Ok(rest) => Ok(seq![n as u32] + rest),
                    Err(u) => Err(u),
                }
            } else {
                Err(())
            },
            None => Err(()),
        }
    }
}

/// Reading an optional array-of-numbers field.
pub open spec fn doc_opt_u32_list(d: JsonDoc, key: Seq<char>) -> Result<Option<Seq<u32>>, ()> {
    match doc_get(d, key) {
        None => Ok(None),
        Some(x) => if x is Null {
            Ok(None)
        } else {
            match x {
                JsonDoc::Arr(a) => match doc_u32_items(a, 0) {
                    Ok(items) => Ok(Some(items)),
                    Err(u) => Err(u),
                },
                _ => Err(()),
            }
        },
    }
}

/// Reading a document's plain named fields, `sections` aside: the document
/// must be an object, and each present field must have its shape.
pub open spec fn doc_raw_fields(d: JsonDoc) -> Result<RawFieldsData, ()> {
    if !(d is Obj) {
        Err(())
    } else {
        match doc_opt_u32(d, "version"@) {
            Err(u) => Err(u),
            Ok(version) => match doc_opt_string(d, "file"@) {
                Err(u) => Err(u),
                Ok(file) => match doc_opt_opt_string_list(d, "sources"@) {
                    Err(u) => Err(u),
                    Ok(sources) => match doc_opt_string(d, "sourceRoot"@) {
                        Err(u) => Err(u),
                        Ok(source_root) => match doc_opt_opt_string_list(d, "sourcesContent"@) {
                            Err(u) => Err(u),
                            Ok(sources_content) => match doc_opt_string_list(d, "names"@) {
                                Err(u) => Err(u),
                                Ok(names) => match doc_opt_string(d, "mappings"@) {
                                    Err(u) => Err(u),
                                    Ok(mappings) => match doc_opt_u32_list(d, "ignoreList"@) {
                                        Err(u) => Err(u),
                                        Ok(ignore_list) => Ok(
                                            RawFieldsData {
                                                version,
                                                file,
                                                sources,
                                                source_root,
                                                sources_content,
                                                names,
                                                mappings,
                                                ignore_list,
                                            },
                                        ),
                                    },
                                },
                            },
                        },
                    },
                },
            },
        }
    }
}

/// Reading one index-map section: an object with a required offset and an
/// optional nested document, read for its plain fields only.
pub open spec fn doc_section(d: JsonDoc) -> Result<RawSectionData, ()> {
    if !(d is Obj) {
        Err(())
    } else {
        match doc_get(d, "offset"@) {
            None => Err(()),
            Some(o) => match doc_opt_u32(o, "line"@) {
                Err(u) => Err(u),
                Ok(None) => Err(()),
                Ok(Some(line)) => match doc_opt_u32(o, "column"@) {
                    Err(u) => Err(u),
                    Ok(None) => Err(()),
                    Ok(Some(column)) => match doc_get(d, "map"@) {
                        None => Ok(RawSectionData { line, column, map: None }),
                        Some(mv) => if mv is Null {
                            Ok(RawSectionData { line, column, map: None })
                        } else {
                            match doc_raw_fields(mv) {
                                Ok(f) => Ok(RawSectionData { line, column, map: Some(f) }),
                                Err(u) => Err(u),
                            }
                        },
                    },
                },
            },
        }
    }
}

/// Reading an array's elements as sections, from index `i`.
pub open spec fn doc_section_items(a: Seq<JsonDoc>, i: int) -> Result<Seq<RawSectionData>, ()>
    decreases a.len() - i,
{
    if i < 0 || i >= a.len() {
        Ok(Seq::empty())
    } else {
        match doc_section(a[i]) {
            Ok(sec) => match doc_section_items(a, i + 1) {
                Ok(rest) => Ok(seq![sec] + rest),
                Err(u) => Err(u),
            },
            Err(u) => Err(u),
        }
    }
}

/// Reading a whole document: its plain fields, then its `sections` when the
/// field is there and not null.
pub open spec fn parse_raw_spec(d: JsonDoc) -> Result<RawDocData, ()> {
    match doc_raw_fields(d) {
        Err(u) => Err(u),
        Ok(fields) => match doc_get(d, "sections"@) {
            None => Ok(RawDocData { fields, sections: None }),
            Some(x) => if x is Null {
                Ok(RawDocData { fields, sections: None })
            } else {
                match x {
                    JsonDoc::Arr(a) => match doc_section_items(a, 0) {
                        Ok(secs) => Ok(RawDocData { fields, sections: Some(secs) }),
                        Err(u) => Err(u),
                    },
                    _ => Err(()),
                }
            },
        },
    }
}

fn syntax_error(what: &str) -> (r: ParseError)
    ensures
        r matches ParseError::Syntax(t) && t@ == what@,
{
    ParseError::Syntax(what.to_owned())
}

/// Reads an optional unsigned 32-bit field.
fn get_opt_u32(v: &simd_json::OwnedValue, key: &str) -> (r: ParseResult<Option<u32>>)
    ensures
        match r {
            Ok(x) => doc_opt_u32(json_model(v), key@) == Ok::<_, ()>(x),
            Err(e) => doc_opt_u32(json_model(v), key@) is Err && e matches ParseError::Syntax(_),
        },
{
    match json_get(v, key) {
        None => Ok(None),
        Some(x) => {
            if json_is_null(x) {
                return Ok(None);
            }
            match json_as_u64(x) {
                Some(n) => if n <= u32::MAX as u64 {
                    Ok(Some(n as u32))
                } else {
                    Err(syntax_error("number field out of range"))
                },
                None => Err(syntax_error("expected a number field")),
            }
        },
    }
}

/// Reads an optional string field.
fn get_opt_string(v: &simd_json::OwnedValue, key: &str) -> (r: ParseResult<Option<String>>)
    ensures
        match r {
            Ok(x) => doc_opt_string(json_model(v), key@) == Ok::<_, ()>(x.deep_view()),
            Err(e) => doc_opt_string(json_model(v), key@) is Err && e matches ParseError::Syntax(
                _,
            ),
        },
{
    match json_get(v, key) {
        None => Ok(None),
        Some(x) => {
            if json_is_null(x) {
                return Ok(None);
            }
            match json_as_string(x) {
                Some(s) => Ok(Some(s)),
                None => Err(syntax_error("expected a string field")),
            }
        },
    }
}

/// Reads an optional array of strings.
fn get_opt_string_list(v: &simd_json::OwnedValue, key: &str) -> (r: ParseResult<
    Option<Vec<String>>,
>)
    ensures
        match r {
            Ok(x) => doc_opt_string_list(json_model(v), key@) == Ok::<_, ()>(
                match x {
                    Some(l) => Some(l.deep_view()),
                    None => None,
                },
            ),
            Err(e) => doc_opt_string_list(json_model(v), key@) is Err
                && e matches ParseError::Syntax(_),
        },
{
    match json_get(v, key) {
        None => Ok(None),
        Some(x) => {
            if json_is_null(x) {
                return Ok(None);
            }
            match json_array_len(x) {
                None => Err(syntax_error("expected an array field")),
                Some(n) => {
                    let ghost a = json_model(x)->Arr_0;
                    let mut out: Vec<String> = Vec::new();
                    let mut i: usize = 0;
                    proof {
                        assert(out.deep_view() =~= Seq::<Seq<char>>::empty());
                        match doc_str_items(a, 0) {
                            Ok(rest) => {
                                assert(Seq::<Seq<char>>::empty() + rest =~= rest);
                            },
                            Err(_) => {},
                        }
                    }
                    while i < n
                        invariant
                            i <= n,
                            doc_get(json_model(v), key@) == Some(json_model(x)),
                            !(json_model(x) is Null),
                            json_model(x) is Arr,
                            a == json_model(x)->Arr_0,
                            n == a.len(),
                            match doc_str_items(a, i as int) {
                                Ok(rest) => doc_str_items(a, 0) == Ok::<_, ()>(
                                    out.deep_view() + rest,
                                ),
                                Err(u) => doc_str_items(a, 0) == Err::<Seq<Seq<char>>, ()>(u),
                            },
                        decreases n - i,
                    {
                        match json_array_get(x, i) {
                            Some(el) => match json_as_string(el) {
                                Some(s) => {
                                    let ghost before = out.deep_view();
                                    proof {
                                        assert(json_model(el) == a[i as int]);
                                        assert(doc_as_str(a[i as int]) == Some(s@));
                                    }
                                    out.push(s);
                                    proof {
                                        assert forall|j: int|
                                            0 <= j < out.deep_view().len() implies out.deep_view()[j]
                                            == before.push(s@)[j] by {}
                                        assert(out.deep_view() =~= before.push(s@));
                                        match doc_str_items(a, i + 1) {
                                            Ok(r2) => {
                                                assert(before + (seq![s@] + r2) =~= out.deep_view()
                                                    + r2);
                                            },
                                            Err(_) => {},
                                        }
                                    }
                                },
                                None => {
                                    proof {
                                        assert(json_model(el) == a[i as int]);
                                        assert(doc_str_items(a, i as int) is Err);
                                    }
                                    return Err(syntax_error("expected a string element"));
                                },
                            },
                            None => {
                                return Err(syntax_error("expected a string element"));
                            },
                        }
                        i = i + 1;
                    }
                    proof {
                        assert(doc_str_items(a, n as int) == Ok::<Seq<Seq<char>>, ()>(Seq::empty()));
                        match doc_str_items(a, 0) {
                            Ok(items) => {
                                assert(out.deep_view() + Seq::<Seq<char>>::empty()
                                    =~= out.deep_view());
                            },
                            Err(_) => {},
                        }
                    }
                    Ok(Some(out))
                },
            }
        },
    }
}

/// Reads an optional array of nullable strings.
fn get_opt_opt_string_list(v: &simd_json::OwnedValue, key: &str) -> (r: ParseResult<
    Option<Vec<Option<String>>>,
>)
    ensures
        match r {
            Ok(x) => doc_opt_opt_string_list(json_model(v), key@) == Ok::<_, ()>(
                match x {
                    Some(l) => Some(l.deep_view()),
                    None => None,
                },
            ),
            Err(e) => doc_opt_opt_string_list(json_model(v), key@) is Err
                && e matches ParseError::Syntax(_),
        },
{
    match json_get(v, key) {
        None => Ok(None),
        Some(x) => {
            if json_is_null(x) {
                return Ok(None);
            }
            match json_array_len(x) {
                None => Err(syntax_error("expected an array field")),
                Some(n) => {
                    let ghost a = json_model(x)->Arr_0;
                    let mut out: Vec<Option<String>> = Vec::new();
                    let mut i: usize = 0;
                    proof {
                        assert(out.deep_view() =~= Seq::<Option<Seq<char>>>::empty());
                        match doc_opt_str_items(a, 0) {
                            Ok(rest) => {
                                assert(Seq::<Option<Seq<char>>>::empty() + rest =~= rest);
                            },
                            Err(_) => {},
                        }
                    }
                    while i < n
                        invariant
                            i <= n,
                            doc_get(json_model(v), key@) == Some(json_model(x)),
                            !(json_model(x) is Null),
                            json_model(x) is Arr,
                            a == json_model(x)->Arr_0,
                            n == a.len(),
                            match doc_opt_str_items(a, i as int) {
                                Ok(rest) => doc_opt_str_items(a, 0) == Ok::<_, ()>(
                                    out.deep_view() + rest,
                                ),
                                Err(u) => doc_opt_str_items(a, 0) == Err::<
                                    Seq<Option<Seq<char>>>,
                                    (),
                                >(u),
                            },
                        decreases n - i,
                    {
                        let ghost before = out.deep_view();
                        let ghost item: Option<Seq<char>>;
                        match json_array_get(x, i) {
                            Some(el) => {
                                proof {
                                    assert(json_model(el) == a[i as int]);
                                }
                                if json_is_null(el) {
                                    out.push(None);
                                    proof {
                                        item = None;
                                    }
                                } else {
                                    match json_as_string(el) {
                                        Some(s) => {
                                            proof {
                                                assert(doc_as_str(a[i as int]) == Some(s@));
                                                item = Some(s@);
                                            }
                                            out.push(Some(s));
                                        },
                                        None => {
                                            proof {
                                                assert(doc_opt_str_items(a, i as int) is Err);
                                            }
                                            return Err(
                                                syntax_error("expected a string or null element"),
                                            );
                                        },
                                    }
                                }
                            },
                            None => {
                                return Err(syntax_error("expected a string or null element"));
                            },
                        }
                        proof {
                            assert forall|j: int|
                                0 <= j < out.deep_view().len() implies out.deep_view()[j]
                                == before.push(item)[j] by {}
                            assert(out.deep_view() =~= before.push(item));
                            match doc_opt_str_items(a, i + 1) {
                                Ok(r2) => {
                                    assert(before + (seq![item] + r2) =~= out.deep_view() + r2);
                                },
                                Err(_) => {},
                            }
                        }
                        i = i + 1;
                    }
                    proof {
                        assert(doc_opt_str_items(a, n as int) == Ok::<Seq<Option<Seq<char>>>, ()>(
                            Seq::empty(),
                        ));
                        assert(out.deep_view() + Seq::<Option<Seq<char>>>::empty()
                            =~= out.deep_view());
                    }
                    Ok(Some(out))
                },
            }
        },
    }
}

/// Reads an optional array of unsigned 32-bit numbers.
fn get_opt_u32_list(v: &simd_json::OwnedValue, key: &str) -> (r: ParseResult<Option<Vec<u32>>>)
    ensures
        match r {
            Ok(x) => doc_opt_u32_list(json_model(v), key@) == Ok::<_, ()>(
                match x {
                    Some(l) => Some(l@),
                    None => None,
                },
            ),
            Err(e) => doc_opt_u32_list(json_model(v), key@) is Err && e matches ParseError::Syntax(
                _,
            ),
        },
{
    match json_get(v, key) {
        None => Ok(None),
        Some(x) => {
            if json_is_null(x) {
                return Ok(None);
            }
            match json_array_len(x) {
                None => Err(syntax_error("expected an array field")),
                Some(n) => {
                    let ghost a = json_model(x)->Arr_0;
                    let mut out: Vec<u32> = Vec::new();
                    let mut i: usize = 0;
                    proof {
                        match doc_u32_items(a, 0) {
                            Ok(rest) => {
                                assert(Seq::<u32>::empty() + rest =~= rest);
                            },
                            Err(_) => {},
                        }
                    }
                    while i < n
                        invariant
                            i <= n,
                            doc_get(json_model(v), key@) == Some(json_model(x)),
                            !(json_model(x) is Null),
                            json_model(x) is Arr,
                            a == json_model(x)->Arr_0,
                            n == a.len(),
                            match doc_u32_items(a, i as int) {
                                Ok(rest) => doc_u32_items(a, 0) == Ok::<_, ()>(out@ + rest),
                                Err(u) => doc_u32_items(a, 0) == Err::<Seq<u32>, ()>(u),
                            },
                        decreases n - i,
                    {
                        match json_array_get(x, i) {
                            Some(el) => match json_as_u64(el) {
                                Some(id) => if id <= u32::MAX as u64 {
                                    let ghost before = out@;
                                    proof {
                                        assert(json_model(el) == a[i as int]);
                                        assert(doc_as_u64(a[i as int]) == Some(id));
                                    }
                                    out.push(id as u32);
                                    proof {
                                        match doc_u32_items(a, i + 1) {
                                            Ok(r2) => {
                                                assert(before + (seq![(id as u32)] + r2) =~= out@
                                                    + r2);
                                            },
                                            Err(_) => {},
                                        }
                                    }
                                } else {
                                    proof {
                                        assert(json_model(el) == a[i as int]);
                                        assert(doc_u32_items(a, i as int) is Err);
                                    }
                                    return Err(syntax_error("number element out of range"));
                                },
                                None => {
                                    proof {
                                        assert(json_model(el) == a[i as int]);
                                        assert(doc_u32_items(a, i as int) is Err);
                                    }
                                    return Err(syntax_error("expected a number element"));
                                },
                            },
                            None => {
                                return Err(syntax_error("expected a number element"));
                            },
                        }
                        i = i + 1;
                    }
                    proof {
                        assert(doc_u32_items(a, n as int) == Ok::<Seq<u32>, ()>(Seq::empty()));
                        assert(out@ + Seq::<u32>::empty() =~= out@);
                    }
                    Ok(Some(out))
                },
            }
        },
    }
}

/// Reads the plain named fields of one document, ignoring `sections`.
fn raw_core_from_value(v: &simd_json::OwnedValue) -> (r: ParseResult<RawSourceMap>)
    ensures
        match r {
            Ok(raw) => doc_raw_fields(json_model(v)) == Ok::<_, ()>(raw_fields_view(raw))
                && raw.sections is None,
            Err(e) => doc_raw_fields(json_model(v)) is Err && e matches ParseError::Syntax(_),
        },
{
    if !json_is_object(v) {
        return Err(syntax_error("expected a JSON object"));
    }
    let version = match get_opt_u32(v, "version") {
        Ok(x) => x,
        Err(e) => {
            return Err(e);
        },
    };
    let file = match get_opt_string(v, "file") {
        Ok(x) => x,
        Err(e) => {
            return Err(e);
        },
    };
    let sources = match get_opt_opt_string_list(v, "sources") {
        Ok(x) => x,
        Err(e) => {
            return Err(e);
        },
    };
    let source_root = match get_opt_string(v, "sourceRoot") {
        Ok(x) => x,
        Err(e) => {
            return Err(e);
        },
    };
    let sources_content = match get_opt_opt_string_list(v, "sourcesContent") {
        Ok(x) => x,
        Err(e) => {
            return Err(e);
        },
    };
    let names = match get_opt_string_list(v, "names") {
        Ok(x) => x,
        Err(e) => {
            return Err(e);
        },
    };
    let mappings = match get_opt_string(v, "mappings") {
        Ok(x) => x,
        Err(e) => {
            return Err(e);
        },
    };
    let ignore_list = match get_opt_u32_list(v, "ignoreList") {
        Ok(x) => x,
        Err(e) => {
            return Err(e);
        },
    };
    let raw = RawSourceMap {
        version,
        file,
        sources,
        source_root,
        sources_content,
        names,
        mappings,
        ignore_list,
        sections: None,
    };
    proof {
        match doc_raw_fields(json_model(v)) {
            Ok(fd) => {
                assert(raw_fields_view(raw) =~~= fd);
            },
            Err(_) => {},
        }
    }
    Ok(raw)
}

/// Reads a whole document: its plain fields and, when present, its
/// `sections`, each with an offset and an optional nested document.
pub(crate) fn raw_from_value(v: &simd_json::OwnedValue) -> (r: ParseResult<RawSourceMap>)
    ensures
        match r {
            Ok(raw) => parse_raw_spec(json_model(v)) == Ok::<_, ()>(raw_doc_view(raw)),
            Err(e) => parse_raw_spec(json_model(v)) is Err && e matches ParseError::Syntax(_),
        },
{
    let mut raw = match raw_core_from_value(v) {
        Ok(x) => x,
        Err(e) => {
            return Err(e);
        },
    };
    let ghost fields = raw_fields_view(raw);
    match json_get(v, "sections") {
        None => {
            proof {
                assert(raw_doc_view(raw) =~~= (RawDocData { fields, sections: None }));
            }
            Ok(raw)
        },
        Some(x) => {
            if json_is_null(x) {
                proof {
                    assert(raw_doc_view(raw) =~~= (RawDocData { fields, sections: None }));
                }
                return Ok(raw);
            }
            match json_array_len(x) {
                None => Err(syntax_error("expected an array of sections")),
                Some(n) => {
                    let ghost a = json_model(x)->Arr_0;
                    let mut sections: Vec<RawSection> = Vec::new();
                    let mut i: usize = 0;
                    proof {
                        assert(raw_sections_view(sections@) =~= Seq::<RawSectionData>::empty());
                        match doc_section_items(a, 0) {
                            Ok(rest) => {
                                assert(Seq::<RawSectionData>::empty() + rest =~= rest);
                            },
                            Err(_) => {},
                        }
                    }
                    while i < n
                        invariant
                            i <= n,
                            doc_get(json_model(v), "sections"@) == Some(json_model(x)),
                            !(json_model(x) is Null),
                            json_model(x) is Arr,
                            a == json_model(x)->Arr_0,
                            n == a.len(),
                            match doc_section_items(a, i as int) {
                                Ok(rest) => doc_section_items(a, 0) == Ok::<_, ()>(
                                    raw_sections_view(sections@) + rest,
                                ),
                                Err(u) => doc_section_items(a, 0) == Err::<
                                    Seq<RawSectionData>,
                                    (),
                                >(u),
                            },
                        decreases n - i,
                    {
                        match json_array_get(x, i) {
                            Some(el) => match section_from_value(el) {
                                Ok(sec) => {
                                    let ghost before = raw_sections_view(sections@);
                                    let ghost sd = raw_section_view(sec);
                                    proof {
                                        assert(json_model(el) == a[i as int]);
                                        assert(doc_section(a[i as int]) == Ok::<_, ()>(sd));
                                    }
                                    sections.push(sec);
                                    proof {
                                        assert(raw_sections_view(sections@) =~= before.push(sd));
                                        match doc_section_items(a, i + 1) {
                                            Ok(r2) => {
                                                assert(before + (seq![sd] + r2)
                                                    =~= raw_sections_view(sections@) + r2);
                                            },
                                            Err(_) => {},
                                        }
                                    }
                                },
                                Err(e) => {
                                    proof {
                                        assert(json_model(el) == a[i as int]);
                                        assert(doc_section_items(a, i as int) is Err);
                                    }
                                    return Err(e);
                                },
                            },
                            None => {
                                return Err(syntax_error("expected a section object"));
                            },
                        }
                        i = i + 1;
                    }
                    proof {
                        assert(doc_section_items(a, n as int) == Ok::<Seq<RawSectionData>, ()>(
                            Seq::empty(),
                        ));
                        assert(raw_sections_view(sections@) + Seq::<RawSectionData>::empty()
                            =~= raw_sections_view(sections@));
                    }
                    let ghost final_secs = raw_sections_view(sections@);
                    raw.sections = Some(sections);
                    proof {
                        assert(raw_fields_view(raw) =~~= fields);
                        assert(raw_doc_view(raw) =~~= (RawDocData {
                            fields,
                            sections: Some(final_secs),
                        }));
                    }
                    Ok(raw)
                },
            }
        },
    }
}

/// Reads one index-map section: a required offset and an optional nested
/// document.
fn section_from_value(v: &simd_json::OwnedValue) -> (r: ParseResult<RawSection>)
    ensures
        match r {
            Ok(sec) => doc_section(json_model(v)) == Ok::<_, ()>(raw_section_view(sec)),
            Err(e) => doc_section(json_model(v)) is Err && e matches ParseError::Syntax(_),
        },
{
    if !json_is_object(v) {
        return Err(syntax_error("expected a section object"));
    }
    let offset = match json_get(v, "offset") {
        None => {
            return Err(syntax_error("a section is missing its offset"));
        },
        Some(o) => {
            let line = match get_opt_u32(o, "line") {
                Ok(Some(x)) => x,
                Ok(None) => {
                    return Err(syntax_error("a section offset is missing its line"));
                },
                Err(e) => {
                    return Err(e);
                },
            };
            let column = match get_opt_u32(o, "column") {
                Ok(Some(x)) => x,
                Ok(None) => {
                    return Err(syntax_error("a section offset is missing its column"));
                },
                Err(e) => {
                    return Err(e);
                },
            };
            RawSectionOffset { line, column }
        },
    };
    let map = match json_get(v, "map") {
        None => None,
        Some(m) => {
            if json_is_null(m) {
                None
            } else {
                match raw_core_from_value(m) {
                    Ok(x) => Some(Box::new(x)),
                    Err(e) => {
                        return Err(e);
                    },
                }
            }
        },
    };
    let sec = RawSection { offset, map };
    proof {
        match doc_section(json_model(v)) {
            Ok(sd) => {
                assert(raw_section_view(sec) =~~= sd);
            },
            Err(_) => {},
        }
    }
    Ok(sec)
}

} // verus!
