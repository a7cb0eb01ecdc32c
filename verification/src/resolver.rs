//! Resolution of one raw documentation type text into the structured type
//! model: enum shapes first, then a fixed table of known tokens, then the
//! plain-text fallback. Resolution is total: every raw text gets a type.

use crate::types::IntegerFormat;
use crate::types::NumberFormat;
use crate::types::SchemaType;
use crate::types::TypeModel;
use vstd::prelude::*;
use vstd::string::StrSliceExecFns;

verus! {

/// The exact textual shape `enum (...)`: the text begins with the six
/// characters `enum (` and ends with `)`.
pub open spec fn is_enum_shape(s: Seq<char>) -> bool {
    &&& s.len() >= 7
    &&& s[0] == 'e'
    &&& s[1] == 'n'
    &&& s[2] == 'u'
    &&& s[3] == 'm'
    &&& s[4] == ' '
    &&& s[5] == '('
    &&& s[s.len() - 1] == ')'
}

/// The characters between the opening `enum (` and the closing `)`.
pub open spec fn enum_body(s: Seq<char>) -> Seq<char> {
    s.subrange(6, s.len() - 1)
}

/// Split on each occurrence of the exact two-character delimiter `, `,
/// scanning left to right; the result always has at least one piece, and
/// the empty text splits into one empty piece.
pub open spec fn split_list(s: Seq<char>) -> Seq<Seq<char>>
    decreases s.len(),
{
    if s.len() >= 2 && s[0] == ',' && s[1] == ' ' {
        seq![Seq::<char>::empty()] + split_list(s.skip(2))
    } else if s.len() == 0 {
        seq![Seq::<char>::empty()]
    } else {
        let rest = split_list(s.skip(1));
        seq![seq![s[0]] + rest[0]] + rest.skip(1)
    }
}

/// What one raw type text resolves to, in the order that decides ambiguous
/// inputs: the enum shape first, then the fixed table of known tokens, and
/// finally the lossy plain-text fallback that absorbs everything else.
pub open spec fn resolved(s: Seq<char>) -> TypeModel {
    if is_enum_shape(s) {
        TypeModel::Text { enumeration: split_list(enum_body(s)) }
    } else if s == "integer(int32)"@ {
        TypeModel::Integer { format: IntegerFormat::Int32 }
    } else if s == "integer(int64)"@ {
        TypeModel::Integer { format: IntegerFormat::Int64 }
    } else if s == "number(float)"@ {
        TypeModel::Number { format: NumberFormat::Float }
    } else if s == "boolean"@ {
        TypeModel::Boolean
    } else if s == "< string > array"@ {
        TypeModel::Array { items: Box::new(TypeModel::Text { enumeration: Seq::empty() }) }
    } else if s == "Map"@ || s == "Object"@ {
        TypeModel::Object
    } else {
        TypeModel::Text { enumeration: Seq::empty() }
    }
}

proof fn lemma_split_list_nonempty(s: Seq<char>)
    ensures
        split_list(s).len() >= 1,
    decreases s.len(),
{
    if s.len() >= 2 && s[0] == ',' && s[1] == ' ' {
    } else if s.len() == 0 {
    } else {
        lemma_split_list_nonempty(s.skip(1));
    }
}

/// The current partial piece, prepended to the first piece of what the rest
/// of the text splits into.
spec fn prepend_first(prefix: Seq<char>, pieces: Seq<Seq<char>>) -> Seq<Seq<char>> {
    seq![prefix + pieces[0]] + pieces.skip(1)
}

proof fn lemma_prepend_first_empty(pieces: Seq<Seq<char>>)
    requires
        pieces.len() >= 1,
    ensures
        prepend_first(Seq::empty(), pieces) == pieces,
{
    assert(Seq::<char>::empty() + pieces[0] =~= pieces[0]);
    assert(prepend_first(Seq::empty(), pieces) =~= pieces);
}

proof fn lemma_prepend_first_concat(a: Seq<char>, b: Seq<char>, pieces: Seq<Seq<char>>)
    requires
        pieces.len() >= 1,
    ensures
        prepend_first(a, prepend_first(b, pieces)) == prepend_first(a + b, pieces),
{
    assert(a + (b + pieces[0]) =~= (a + b) + pieces[0]);
    assert(prepend_first(b, pieces).skip(1) =~= pieces.skip(1));
    assert(prepend_first(a, prepend_first(b, pieces)) =~= prepend_first(a + b, pieces));
}

/// Character-for-character equality of two string slices.
pub fn str_eq(a: &str, b: &str) -> (r: bool)
    ensures
        r == (a@ == b@),
{
    let a_len = a.unicode_len();
    let b_len = b.unicode_len();
    if a_len != b_len {
        return false;
    }
    let mut i: usize = 0;
    while i < a_len
        invariant
            i <= a_len,
            a_len == a@.len(),
            a_len == b@.len(),
            forall|q: int| 0 <= q < i ==> a@[q] == b@[q],
        decreases a_len - i,
    {
        if a.get_char(i) != b.get_char(i) {
            return false;
        }
        i = i + 1;
    }
    proof {
        assert(a@ =~= b@);
    }
    true
}

/// Whether the raw text has the exact `enum (...)` shape.
pub fn has_enum_shape(raw: &str) -> (r: bool)
    ensures
        r == is_enum_shape(raw@),
{
    let n = raw.unicode_len();
    if n < 7 {
        return false;
    }
    raw.get_char(0) == 'e' && raw.get_char(1) == 'n' && raw.get_char(2) == 'u' && raw.get_char(3)
        == 'm' && raw.get_char(4) == ' ' && raw.get_char(5) == '(' && raw.get_char(n - 1) == ')'
}

/// Split the text on each occurrence of the two-character delimiter `, `;
/// the pieces are taken verbatim, with no trimming.
pub fn split_comma_space(s: &str) -> (r: Vec<String>)
    ensures
        r.deep_view() == split_list(s@),
{
    let n = s.unicode_len();
    let mut pieces: Vec<String> = Vec::new();
    let mut start: usize = 0;
    let mut i: usize = 0;
    proof {
        lemma_split_list_nonempty(s@);
        assert(s@.skip(0) =~= s@);
        assert(s@.subrange(0, 0) =~= Seq::<char>::empty());
        lemma_prepend_first_empty(split_list(s@));
        assert(pieces.deep_view() =~= Seq::<Seq<char>>::empty());
    }
    while i < n
        invariant
            n == s@.len(),
            start <= i <= n,
            split_list(s@) == pieces.deep_view() + prepend_first(
                s@.subrange(start as int, i as int),
                split_list(s@.skip(i as int)),
            ),
        decreases n - i,
    {
        let ghost rem = s@.skip(i as int);
        proof {
            assert(rem.len() == n - i);
            assert(rem[0] == s@[i as int]);
            if i + 1 < n {
                assert(rem[1] == s@[i as int + 1]);
            }
        }
        if i + 1 < n && s.get_char(i) == ',' && s.get_char(i + 1) == ' ' {
            let piece = s.substring_char(start, i).to_owned();
            proof {
                let cur = s@.subrange(start as int, i as int);
                let tail = split_list(s@.skip(i as int + 2));
                assert(rem.skip(2) =~= s@.skip(i as int + 2));
                assert(split_list(rem) == seq![Seq::<char>::empty()] + tail);
                lemma_split_list_nonempty(s@.skip(i as int + 2));
                assert(cur + Seq::<char>::empty() =~= cur);
                assert((seq![Seq::<char>::empty()] + tail).skip(1) =~= tail);
                assert(prepend_first(cur, split_list(rem)) =~= seq![cur] + tail);
                assert(pieces.deep_view().push(piece@) + tail =~= pieces.deep_view() + (seq![cur]
                    + tail));
                lemma_prepend_first_empty(tail);
                assert(s@.subrange(i as int + 2, i as int + 2) =~= Seq::<char>::empty());
            }
            let ghost old_pieces = pieces.deep_view();
            pieces.push(piece);
            proof {
                assert(pieces.deep_view() =~= old_pieces.push(piece@));
            }
            i = i + 2;
            start = i;
        } else {
            proof {
                let cur = s@.subrange(start as int, i as int);
                let tail = split_list(s@.skip(i as int + 1));
                assert(rem.skip(1) =~= s@.skip(i as int + 1));
                assert(!(rem.len() >= 2 && rem[0] == ',' && rem[1] == ' '));
                assert(split_list(rem) == prepend_first(seq![rem[0]], tail));
                lemma_split_list_nonempty(s@.skip(i as int + 1));
                lemma_prepend_first_concat(cur, seq![rem[0]], tail);
                assert(cur + seq![rem[0]] =~= s@.subrange(start as int, i as int + 1));
            }
            i = i + 1;
        }
    }
    let piece = s.substring_char(start, n).to_owned();
    proof {
        let cur = s@.subrange(start as int, i as int);
        assert(s@.skip(n as int) =~= Seq::<char>::empty());
        assert(split_list(Seq::<char>::empty()) == seq![Seq::<char>::empty()]);
        assert(cur + Seq::<char>::empty() =~= cur);
        assert(seq![Seq::<char>::empty()].skip(1) =~= Seq::<Seq<char>>::empty());
        assert(prepend_first(cur, seq![Seq::<char>::empty()]) =~= seq![cur]);
        let ghost old_pieces = pieces.deep_view();
        assert(split_list(s@) == old_pieces + seq![cur]);
    }
    let ghost old_pieces = pieces.deep_view();
    pieces.push(piece);
    proof {
        assert(pieces.deep_view() =~= old_pieces.push(piece@));
        assert(old_pieces.push(piece@) =~= split_list(s@));
    }
    pieces
}

/// Parse the exact shape `enum (v1, v2, ..., vn)` into a text type carrying
/// the comma-space-separated literal values; any other shape is not an enum.
pub fn enum_type(raw: &str) -> (r: Option<SchemaType>)
    ensures
        is_enum_shape(raw@) ==> (r matches Some(t) && t@ == TypeModel::Text {
            enumeration: split_list(enum_body(raw@)),
        }),
        !is_enum_shape(raw@) ==> r is None,
{
    if has_enum_shape(raw) {
        let n = raw.unicode_len();
        let body = raw.substring_char(6, n - 1);
        let values = split_comma_space(body);
        Some(SchemaType::Text { enumeration: values })
    } else {
        None
    }
}

/// Resolve one raw type text: enum shapes first, then the fixed table of
/// known tokens, then the plain-text fallback. Total: never fails.
pub fn parse_type(raw: &str) -> (t: SchemaType)
    ensures
        t@ == resolved(raw@),
{
    match enum_type(raw) {
        Some(t) => t,
        None => {
            if str_eq(raw, "integer(int32)") {
                SchemaType::Integer { format: IntegerFormat::Int32 }
            } else if str_eq(raw, "integer(int64)") {
                SchemaType::Integer { format: IntegerFormat::Int64 }
            } else if str_eq(raw, "number(float)") {
                SchemaType::Number { format: NumberFormat::Float }
            } else if str_eq(raw, "boolean") {
                SchemaType::Boolean
            } else if str_eq(raw, "< string > array") {
                let plain: Vec<String> = Vec::new();
                proof {
                    assert(plain.deep_view() =~= Seq::<Seq<char>>::empty());
                }
                let inner = SchemaType::Text { enumeration: plain };
                proof {
                    assert(inner@ == (TypeModel::Text { enumeration: Seq::<Seq<char>>::empty() }));
                }
                SchemaType::Array { items: Box::new(inner) }
            } else if str_eq(raw, "Map") || str_eq(raw, "Object") {
                SchemaType::Object
            } else {
                let plain: Vec<String> = Vec::new();
                proof {
                    assert(plain.deep_view() =~= Seq::<Seq<char>>::empty());
                }
                SchemaType::Text { enumeration: plain }
            }
        },
    }
}

/// Law: resolution is a pure function of the raw text alone; two resolutions
/// of the same text give the same model.
pub proof fn lemma_resolution_deterministic(s: Seq<char>, t1: TypeModel, t2: TypeModel)
    requires
        t1 == resolved(s),
        t2 == resolved(s),
    ensures
        t1 == t2,
{
}

/// Law: the fixed table of known raw-type tokens maps exactly as documented,
/// and none of its entries is mistaken for an enum shape.
pub proof fn lemma_fixed_table()
    ensures
        resolved("integer(int32)"@) == (TypeModel::Integer { format: IntegerFormat::Int32 }),
        resolved("integer(int64)"@) == (TypeModel::Integer { format: IntegerFormat::Int64 }),
        resolved("number(float)"@) == (TypeModel::Number { format: NumberFormat::Float }),
        resolved("boolean"@) == TypeModel::Boolean,
        resolved("< string > array"@) == (TypeModel::Array {
            items: Box::new(TypeModel::Text { enumeration: Seq::empty() }),
        }),
        resolved("Map"@) == TypeModel::Object,
        resolved("Object"@) == TypeModel::Object,
{
    reveal_strlit("integer(int32)");
    reveal_strlit("integer(int64)");
    reveal_strlit("number(float)");
    reveal_strlit("boolean");
    reveal_strlit("< string > array");
    reveal_strlit("Map");
    reveal_strlit("Object");
    assert("integer(int32)"@[11] != "integer(int64)"@[11]);
}

/// Law: fallback totality; any raw text that matches neither the enum shape
/// nor the fixed table resolves to plain text, never to a failure.
pub proof fn lemma_fallback_totality(s: Seq<char>)
    requires
        !is_enum_shape(s),
        s != "integer(int32)"@,
        s != "integer(int64)"@,
        s != "number(float)"@,
        s != "boolean"@,
        s != "< string > array"@,
        s != "Map"@,
        s != "Object"@,
    ensures
        resolved(s) == (TypeModel::Text { enumeration: Seq::<Seq<char>>::empty() }),
{
}

} // verus!
