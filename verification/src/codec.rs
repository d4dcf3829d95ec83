//! The persisted form of the file list: a JSON array of objects, each with
//! the five string fields of a record, in a fixed order and without
//! whitespace.  The encoder produces exactly that form; the decoder accepts
//! it and rejects everything else, and decoding what was encoded gives the
//! original list back (proved below).

use vstd::prelude::*;
use crate::digits::push_char;
use crate::models::{FileV, StoredFile, view_files};

verus! {

// ---------------------------------------------------------------------------
// The encoded text, as a mathematical function of the list.
// ---------------------------------------------------------------------------
/// How one character of a field value stands in the encoded text: quotes and
/// backslashes carry a backslash before them, all else stands as itself.
pub open spec fn escape_char(c: char) -> Seq<char> {
    if c == '"' {
        seq!['\\', '"']
    } else if c == '\\' {
        seq!['\\', '\\']
    } else {
        seq![c]
    }
}

/// A field value with its characters escaped.
pub open spec fn escape(s: Seq<char>) -> Seq<char>
    decreases s.len(),
{
    if s.len() == 0 {
        Seq::empty()
    } else {
        escape_char(s[0]) + escape(s.drop_first())
    }
}

pub open spec fn key_file_id() -> Seq<char> {
    seq!['f', 'i', 'l', 'e', '_', 'i', 'd']
}

pub open spec fn key_filename() -> Seq<char> {
    seq!['f', 'i', 'l', 'e', 'n', 'a', 'm', 'e']
}

pub open spec fn key_download_url() -> Seq<char> {
    seq!['d', 'o', 'w', 'n', 'l', 'o', 'a', 'd', '_', 'u', 'r', 'l']
}

pub open spec fn key_expires_at() -> Seq<char> {
    seq!['e', 'x', 'p', 'i', 'r', 'e', 's', '_', 'a', 't']
}

pub open spec fn key_uploaded_at() -> Seq<char> {
    seq!['u', 'p', 'l', 'o', 'a', 'd', 'e', 'd', '_', 'a', 't']
}

/// What opens one member: the quoted key, a colon and the opening quote of
/// the value.
pub open spec fn field_open(key: Seq<char>) -> Seq<char> {
    seq!['"'] + key + seq!['"', ':', '"']
}

/// One `"key":"value"` member of an object.
pub open spec fn field(key: Seq<char>, value: Seq<char>) -> Seq<char> {
    field_open(key) + escape(value) + seq!['"']
}

/// One record as a JSON object with the five fields in fixed order.
pub open spec fn encode_file(f: FileV) -> Seq<char> {
    seq!['{'] + field(key_file_id(), f.file_id) + seq![','] + field(key_filename(), f.filename)
        + seq![','] + field(key_download_url(), f.download_url) + seq![','] + field(
        key_expires_at(),
        f.expires_at,
    ) + seq![','] + field(key_uploaded_at(), f.uploaded_at) + seq!['}']
}

/// The members after the first, each preceded by a comma.
pub open spec fn encode_tail(fs: Seq<FileV>) -> Seq<char>
    decreases fs.len(),
{
    if fs.len() == 0 {
        Seq::empty()
    } else {
        seq![','] + encode_file(fs[0]) + encode_tail(fs.drop_first())
    }
}

/// The comma-separated members of the array.
pub open spec fn encode_items(fs: Seq<FileV>) -> Seq<char> {
    if fs.len() == 0 {
        Seq::empty()
    } else {
        encode_file(fs[0]) + encode_tail(fs.drop_first())
    }
}

/// The whole encoded list.
pub open spec fn spec_encode(fs: Seq<FileV>) -> Seq<char> {
    seq!['['] + encode_items(fs) + seq![']']
}

// ---------------------------------------------------------------------------
// Small facts about the encoding.
// ---------------------------------------------------------------------------
/// Escaping one more character appends its escaped form.
proof fn lemma_escape_snoc(s: Seq<char>, c: char)
    ensures
        escape(s.push(c)) == escape(s) + escape_char(c),
    decreases s.len(),
{
    if s.len() == 0 {
        reveal_with_fuel(escape, 2);
        assert(s =~= Seq::<char>::empty());
        assert(s.push(c) =~= seq![c]);
        assert(s.push(c).drop_first() =~= Seq::<char>::empty());
        assert(escape(s.push(c)) =~= escape(s) + escape_char(c));
    } else {
        let rest = s.drop_first();
        assert(s.push(c)[0] == s[0]);
        assert(s.push(c).drop_first() =~= rest.push(c));
        lemma_escape_snoc(rest, c);
        assert(escape(s.push(c)) == escape_char(s[0]) + escape(rest.push(c)));
        assert(escape(s.push(c)) == escape_char(s[0]) + (escape(rest) + escape_char(c)));
        assert(escape(s) == escape_char(s[0]) + escape(rest));
        assert(escape(s.push(c)) =~= escape(s) + escape_char(c));
    }
}

/// One more member appends a comma and its object.
proof fn lemma_tail_snoc(fs: Seq<FileV>, f: FileV)
    ensures
        encode_tail(fs.push(f)) == encode_tail(fs) + seq![','] + encode_file(f),
    decreases fs.len(),
{
    if fs.len() == 0 {
        reveal_with_fuel(encode_tail, 2);
        assert(fs =~= Seq::<FileV>::empty());
        assert(fs.push(f) =~= seq![f]);
        assert(fs.push(f).drop_first() =~= Seq::<FileV>::empty());
        assert(encode_tail(fs.push(f)) =~= encode_tail(fs) + seq![','] + encode_file(f));
    } else {
        let rest = fs.drop_first();
        assert(fs.push(f)[0] == fs[0]);
        assert(fs.push(f).drop_first() =~= rest.push(f));
        lemma_tail_snoc(rest, f);
        assert(encode_tail(fs.push(f)) == seq![','] + encode_file(fs[0]) + encode_tail(
            rest.push(f),
        ));
        assert(encode_tail(fs) == seq![','] + encode_file(fs[0]) + encode_tail(rest));
        assert(encode_tail(fs.push(f)) =~= encode_tail(fs) + seq![','] + encode_file(f));
    }
}

/// One more member of the items text.
proof fn lemma_items_snoc(fs: Seq<FileV>, f: FileV)
    ensures
        fs.len() == 0 ==> encode_items(fs.push(f)) == encode_file(f),
        fs.len() > 0 ==> encode_items(fs.push(f)) == encode_items(fs) + seq![','] + encode_file(
            f,
        ),
{
    if fs.len() == 0 {
        assert(fs.push(f) =~= seq![f]);
        assert(seq![f].drop_first() =~= Seq::<FileV>::empty());
        assert(encode_items(fs.push(f)) =~= encode_file(f));
    } else {
        assert(fs.push(f)[0] == fs[0]);
        assert(fs.push(f).drop_first() =~= fs.drop_first().push(f));
        lemma_tail_snoc(fs.drop_first(), f);
        assert(encode_items(fs.push(f)) =~= encode_items(fs) + seq![','] + encode_file(f));
    }
}

// ---------------------------------------------------------------------------
// The encoder.
// ---------------------------------------------------------------------------
/// Appends the escaped form of `v` to `out`.
fn push_escaped(out: &mut String, v: &str)
    ensures
        final(out)@ == old(out)@ + escape(v@),
{
    let n = v.unicode_len();
    let mut i: usize = 0;
    while i < n
        invariant
            i <= n,
            n == v@.len(),
            out@ == old(out)@ + escape(v@.take(i as int)),
        decreases n - i,
    {
        let ghost prefix = v@.take(i as int);
        let c = v.get_char(i);
        if c == '"' {
            push_char(out, '\\');
            push_char(out, '"');
        } else if c == '\\' {
            push_char(out, '\\');
            push_char(out, '\\');
        } else {
            push_char(out, c);
        }
        proof {
            lemma_escape_snoc(prefix, v@[i as int]);
            assert(v@.take(i + 1) =~= prefix.push(v@[i as int]));
            assert(out@ =~= old(out)@ + escape(v@.take(i + 1)));
        }
        i = i + 1;
    }
    proof {
        assert(v@.take(n as int) =~= v@);
    }
}

/// Appends the object of one record to `out`.
fn push_file(out: &mut String, f: &StoredFile)
    ensures
        final(out)@ == old(out)@ + encode_file(f@),
{
    out.append("{\"file_id\":\"");
    push_escaped(out, f.file_id.as_str());
    out.append("\",\"filename\":\"");
    push_escaped(out, f.filename.as_str());
    out.append("\",\"download_url\":\"");
    push_escaped(out, f.download_url.as_str());
    out.append("\",\"expires_at\":\"");
    push_escaped(out, f.expires_at.as_str());
    out.append("\",\"uploaded_at\":\"");
    push_escaped(out, f.uploaded_at.as_str());
    out.append("\"}");
    proof {
        reveal_strlit("{\"file_id\":\"");
        reveal_strlit("\",\"filename\":\"");
        reveal_strlit("\",\"download_url\":\"");
        reveal_strlit("\",\"expires_at\":\"");
        reveal_strlit("\",\"uploaded_at\":\"");
        reveal_strlit("\"}");
        assert(out@ =~= old(out)@ + encode_file(f@));
    }
}

// ---------------------------------------------------------------------------
// The decoded value, as a mathematical function of the text.
// ---------------------------------------------------------------------------
/// Whether the text carries exactly `lit` at position `i`.
pub open spec fn lit_at(s: Seq<char>, i: int, lit: Seq<char>) -> bool {
    0 <= i && i + lit.len() <= s.len() && s.subrange(i, i + lit.len()) == lit
}

/// The value and end position of a string whose opening quote stands just
/// before `i`: characters up to the first bare quote, with `\"` and `\\`
/// standing for a quote and a backslash.  `None` when the text ends first or
/// a backslash is followed by anything else.
pub open spec fn parse_string_body(s: Seq<char>, i: int) -> Option<(Seq<char>, int)>
    decreases s.len() - i,
{
    if i < 0 || i >= s.len() {
        None
    } else if s[i] == '"' {
        Some((Seq::empty(), i + 1))
    } else if s[i] == '\\' {
        if i + 1 < s.len() && (s[i + 1] == '"' || s[i + 1] == '\\') {
            match parse_string_body(s, i + 2) {
                None => None,
                Some((t, j)) => Some((seq![s[i + 1]] + t, j)),
            }
        } else {
            None
        }
    } else {
        match parse_string_body(s, i + 1) {
            None => None,
            Some((t, j)) => Some((seq![s[i]] + t, j)),
        }
    }
}

/// The value and end position of one `"key":"value"` member at `i`.
pub open spec fn parse_field(s: Seq<char>, i: int, key: Seq<char>) -> Option<(Seq<char>, int)> {
    if lit_at(s, i, field_open(key)) {
        parse_string_body(s, i + field_open(key).len())
    } else {
        None
    }
}

/// The record and end position of one object at `i`: the five fields in
/// fixed order, separated by commas.
pub open spec fn parse_file(s: Seq<char>, i: int) -> Option<(FileV, int)> {
    if !lit_at(s, i, seq!['{']) {
        None
    } else {
        match parse_field(s, i + 1, key_file_id()) {
            None => None,
            Some((file_id, j1)) => if !lit_at(s, j1, seq![',']) {
                None
            } else {
                match parse_field(s, j1 + 1, key_filename()) {
                    None => None,
                    Some((filename, j2)) => if !lit_at(s, j2, seq![',']) {
                        None
                    } else {
                        match parse_field(s, j2 + 1, key_download_url()) {
                            None => None,
                            Some((download_url, j3)) => if !lit_at(s, j3, seq![',']) {
                                None
                            } else {
                                match parse_field(s, j3 + 1, key_expires_at()) {
                                    None => None,
                                    Some((expires_at, j4)) => if !lit_at(s, j4, seq![',']) {
                                        None
                                    } else {
                                        match parse_field(s, j4 + 1, key_uploaded_at()) {
                                            None => None,
                                            Some((uploaded_at, j5)) => if !lit_at(
                                                s,
                                                j5,
                                                seq!['}'],
                                            ) {
                                                None
                                            } else {
                                                Some(
                                                    (
                                                        FileV {
                                                            file_id,
                                                            filename,
                                                            download_url,
                                                            expires_at,
                                                            uploaded_at,
                                                        },
                                                        j5 + 1,
                                                    ),
                                                )
                                            },
                                        }
                                    },
                                }
                            },
                        }
                    },
                }
            },
        }
    }
}

/// The records after the first one: at `i` stands either the closing bracket
/// of the whole text, or a comma and one more object.
pub open spec fn parse_tail(s: Seq<char>, i: int) -> Option<Seq<FileV>>
    decreases s.len() - i,
{
    if i < 0 || i >= s.len() {
        None
    } else if s[i] == ']' {
        if i == s.len() - 1 {
            Some(Seq::empty())
        } else {
            None
        }
    } else if s[i] == ',' {
        match parse_file(s, i + 1) {
            None => None,
            Some((f, j)) => if i < j && j <= s.len() {
                match parse_tail(s, j) {
                    None => None,
                    Some(rest) => Some(seq![f] + rest),
                }
            } else {
                None
            },
        }
    } else {
        None
    }
}

/// The list whose encoded form the whole text is; `None` for any other text.
pub open spec fn spec_parse(s: Seq<char>) -> Option<Seq<FileV>> {
    if s.len() >= 2 && s[0] == '[' {
        if s.len() == 2 && s[1] == ']' {
            Some(Seq::empty())
        } else {
            match parse_file(s, 1) {
                None => None,
                Some((f, j)) => if 1 < j && j <= s.len() {
                    match parse_tail(s, j) {
                        None => None,
                        Some(rest) => Some(seq![f] + rest),
                    }
                } else {
                    None
                },
            }
        }
    } else {
        None
    }
}

/// The encoded text of the whole list, newest first as given.
pub fn encode_files(files: &Vec<StoredFile>) -> (r: String)
    ensures
        r@ == spec_encode(view_files(files@)),
{
    let ghost fs = view_files(files@);
    let mut out = String::new();
    out.append("[");
    proof {
        reveal_strlit("[");
        assert(out@ =~= seq!['['] + encode_items(fs.take(0)));
    }
    let mut k: usize = 0;
    while k < files.len()
        invariant
            k <= files@.len(),
            fs == view_files(files@),
            fs.len() == files@.len(),
            out@ == seq!['['] + encode_items(fs.take(k as int)),
        decreases files@.len() - k,
    {
        if k > 0 {
            out.append(",");
            proof {
                reveal_strlit(",");
            }
        }
        push_file(&mut out, &files[k]);
        proof {
            lemma_items_snoc(fs.take(k as int), fs[k as int]);
            assert(fs.take(k + 1) =~= fs.take(k as int).push(fs[k as int]));
            assert(out@ =~= seq!['['] + encode_items(fs.take(k + 1)));
        }
        k = k + 1;
    }
    out.append("]");
    proof {
        reveal_strlit("]");
        assert(fs.take(fs.len() as int) =~= fs);
        assert(out@ =~= spec_encode(fs));
    }
    out
}

// ---------------------------------------------------------------------------
// Decoding what was encoded gives the original list back.
// ---------------------------------------------------------------------------
/// A literal at `i` splits into its two halves.
proof fn lemma_lit_at_split(s: Seq<char>, i: int, a: Seq<char>, b: Seq<char>)
    requires
        lit_at(s, i, a + b),
    ensures
        lit_at(s, i, a),
        lit_at(s, i + a.len(), b),
{
    let ab = a + b;
    assert forall|k: int| 0 <= k < ab.len() implies s[i + k] == ab[k] by {
        assert(s.subrange(i, i + ab.len())[k] == s[i + k]);
    }
    assert forall|k: int| 0 <= k < a.len() implies s.subrange(i, i + a.len())[k] == a[k] by {
        assert(s[i + k] == ab[k]);
    }
    assert(s.subrange(i, i + a.len()) =~= a);
    assert forall|q: int|
        0 <= q < b.len() implies s.subrange(i + a.len(), i + a.len() + b.len())[q] == b[q] by {
        assert(s[i + (a.len() + q)] == ab[a.len() + q]);
        assert(ab[a.len() + q] == b[q]);
        assert(s.subrange(i + a.len(), i + a.len() + b.len())[q] == s[i + a.len() + q]);
    }
    assert(s.subrange(i + a.len(), i + a.len() + b.len()) =~= b);
}

/// A single-character literal pins the character down.
proof fn lemma_lit_at_char(s: Seq<char>, i: int, c: char)
    requires
        lit_at(s, i, seq![c]),
    ensures
        0 <= i < s.len() && s[i] == c,
{
    assert(s.subrange(i, i + 1)[0] == s[i]);
}

/// An escaped value followed by a bare quote reads back as that value.
proof fn lemma_scan_escape(s: Seq<char>, i: int, v: Seq<char>)
    requires
        lit_at(s, i, escape(v)),
        i + escape(v).len() < s.len(),
        s[i + escape(v).len()] == '"',
    ensures
        parse_string_body(s, i) == Some((v, i + escape(v).len() + 1)),
    decreases v.len(),
{
    if v.len() == 0 {
        assert(v =~= Seq::<char>::empty());
        assert(escape(v) =~= Seq::<char>::empty());
        assert(s[i] == '"');
    } else {
        let e0 = escape_char(v[0]);
        let rest = v.drop_first();
        assert(escape(v) == e0 + escape(rest));
        lemma_lit_at_split(s, i, e0, escape(rest));
        lemma_scan_escape(s, i + e0.len(), rest);
        assert(seq![v[0]] + rest =~= v);
        if v[0] == '"' || v[0] == '\\' {
            assert(e0 == seq!['\\', v[0]]);
            assert(s.subrange(i, i + 2)[0] == s[i]);
            assert(s.subrange(i, i + 2)[1] == s[i + 1]);
            assert(s[i] == '\\');
            assert(s[i + 1] == v[0]);
        } else {
            assert(e0 == seq![v[0]]);
            assert(s.subrange(i, i + 1)[0] == s[i]);
            assert(s[i] == v[0]);
        }
    }
}

/// An encoded member reads back as its value.
proof fn lemma_scan_field(s: Seq<char>, i: int, key: Seq<char>, v: Seq<char>)
    requires
        lit_at(s, i, field(key, v)),
    ensures
        parse_field(s, i, key) == Some((v, i + field(key, v).len())),
{
    let fo = field_open(key);
    assert(field(key, v) =~= fo + (escape(v) + seq!['"']));
    lemma_lit_at_split(s, i, fo, escape(v) + seq!['"']);
    lemma_lit_at_split(s, i + fo.len(), escape(v), seq!['"']);
    lemma_lit_at_char(s, i + fo.len() + escape(v).len(), '"');
    lemma_scan_escape(s, i + fo.len(), v);
}

/// An encoded object reads back as its record.
proof fn lemma_scan_file(s: Seq<char>, i: int, f: FileV)
    requires
        lit_at(s, i, encode_file(f)),
    ensures
        parse_file(s, i) == Some((f, i + encode_file(f).len())),
{
    let f1 = field(key_file_id(), f.file_id);
    let f2 = field(key_filename(), f.filename);
    let f3 = field(key_download_url(), f.download_url);
    let f4 = field(key_expires_at(), f.expires_at);
    let f5 = field(key_uploaded_at(), f.uploaded_at);
    let r10 = seq!['}'];
    let r9 = f5 + r10;
    let r8 = seq![','] + r9;
    let r7 = f4 + r8;
    let r6 = seq![','] + r7;
    let r5 = f3 + r6;
    let r4 = seq![','] + r5;
    let r3 = f2 + r4;
    let r2 = seq![','] + r3;
    let r1 = f1 + r2;
    assert(encode_file(f) =~= seq!['{'] + r1);
    lemma_lit_at_split(s, i, seq!['{'], r1);
    let p1 = i + 1;
    lemma_lit_at_split(s, p1, f1, r2);
    let q1 = p1 + f1.len();
    lemma_lit_at_split(s, q1, seq![','], r3);
    let p2 = q1 + 1;
    lemma_lit_at_split(s, p2, f2, r4);
    let q2 = p2 + f2.len();
    lemma_lit_at_split(s, q2, seq![','], r5);
    let p3 = q2 + 1;
    lemma_lit_at_split(s, p3, f3, r6);
    let q3 = p3 + f3.len();
    lemma_lit_at_split(s, q3, seq![','], r7);
    let p4 = q3 + 1;
    lemma_lit_at_split(s, p4, f4, r8);
    let q4 = p4 + f4.len();
    lemma_lit_at_split(s, q4, seq![','], r9);
    let p5 = q4 + 1;
    lemma_lit_at_split(s, p5, f5, r10);
    let q5 = p5 + f5.len();
    lemma_scan_field(s, p1, key_file_id(), f.file_id);
    lemma_scan_field(s, p2, key_filename(), f.filename);
    lemma_scan_field(s, p3, key_download_url(), f.download_url);
    lemma_scan_field(s, p4, key_expires_at(), f.expires_at);
    lemma_scan_field(s, p5, key_uploaded_at(), f.uploaded_at);
    assert(parse_file(s, i) == Some((f, q5 + 1)));
}

/// The encoded members after the first, closed by the final bracket, read
/// back as their records.
proof fn lemma_scan_tail(s: Seq<char>, i: int, fs: Seq<FileV>)
    requires
        lit_at(s, i, encode_tail(fs) + seq![']']),
        i + encode_tail(fs).len() + 1 == s.len(),
    ensures
        parse_tail(s, i) == Some(fs),
    decreases fs.len(),
{
    if fs.len() == 0 {
        assert(fs =~= Seq::<FileV>::empty());
        assert(encode_tail(fs) + seq![']'] =~= seq![']']);
        lemma_lit_at_char(s, i, ']');
    } else {
        let rest = fs.drop_first();
        assert(encode_tail(fs) == seq![','] + encode_file(fs[0]) + encode_tail(rest));
        assert(encode_tail(fs) + seq![']'] =~= seq![','] + (encode_file(fs[0]) + (encode_tail(
            rest,
        ) + seq![']'])));
        lemma_lit_at_split(s, i, seq![','], encode_file(fs[0]) + (encode_tail(rest) + seq![']']));
        lemma_lit_at_char(s, i, ',');
        lemma_lit_at_split(s, i + 1, encode_file(fs[0]), encode_tail(rest) + seq![']']);
        lemma_scan_file(s, i + 1, fs[0]);
        let j = i + 1 + encode_file(fs[0]).len();
        lemma_scan_tail(s, j, rest);
        assert(seq![fs[0]] + rest =~= fs);
        assert(s[i] != ']') by {
            assert(s.subrange(i, i + 1)[0] == s[i]);
        }
    }
}

/// Decoding an encoded list gives the list back, whatever its records hold.
#[verifier::rlimit(50)]
pub proof fn lemma_decode_encode(fs: Seq<FileV>)
    ensures
        spec_parse(spec_encode(fs)) == Some(fs),
{
    let s = spec_encode(fs);
    assert(s.subrange(0, s.len() as int) =~= s);
    assert(lit_at(s, 0, seq!['['] + (encode_items(fs) + seq![']']))) by {
        assert(s =~= seq!['['] + (encode_items(fs) + seq![']']));
    }
    lemma_lit_at_split(s, 0, seq!['['], encode_items(fs) + seq![']']);
    lemma_lit_at_char(s, 0, '[');
    if fs.len() == 0 {
        assert(s =~= seq!['[', ']']);
        assert(fs =~= Seq::<FileV>::empty());
    } else {
        let rest = fs.drop_first();
        assert(encode_items(fs) == encode_file(fs[0]) + encode_tail(rest));
        assert(encode_items(fs) + seq![']'] =~= encode_file(fs[0]) + (encode_tail(rest) + seq![
            ']'
        ]));
        lemma_lit_at_split(s, 1, encode_file(fs[0]), encode_tail(rest) + seq![']']);
        lemma_scan_file(s, 1, fs[0]);
        let j: int = 1 + encode_file(fs[0]).len() as int;
        lemma_scan_tail(s, j, rest);
        assert(seq![fs[0]] + rest =~= fs);
        assert(s.len() > 2);
    }
}

// ---------------------------------------------------------------------------
// The decoder.
// ---------------------------------------------------------------------------
/// The characters of a string slice as a vector.
fn str_to_chars(s: &str) -> (r: Vec<char>)
    ensures
        r@ == s@,
{
    let n = s.unicode_len();
    let mut r: Vec<char> = Vec::new();
    let mut i: usize = 0;
    while i < n
        invariant
            i <= n,
            n == s@.len(),
            r@ == s@.take(i as int),
        decreases n - i,
    {
        let c = s.get_char(i);
        r.push(c);
        proof {
            assert(s@.take(i + 1) =~= s@.take(i as int).push(s@[i as int]));
        }
        i = i + 1;
    }
    proof {
        assert(s@.take(n as int) =~= s@);
    }
    r
}

/// Reads a string body from `start`, mirroring [`parse_string_body`].
fn scan_string_body(s: &Vec<char>, start: usize) -> (r: Option<(String, usize)>)
    requires
        start <= s@.len(),
    ensures
        match r {
            Some(v) => parse_string_body(s@, start as int) == Some((v.0@, v.1 as int)) && start
                < v.1 <= s@.len(),
            None => parse_string_body(s@, start as int) is None,
        },
{
    let mut i: usize = start;
    let mut out = String::new();
    loop
        invariant
            start <= i <= s@.len(),
            parse_string_body(s@, start as int) == (match parse_string_body(s@, i as int) {
                Some((t, j)) => Some((out@ + t, j)),
                None => None::<(Seq<char>, int)>,
            }),
        decreases s@.len() - i,
    {
        if i >= s.len() {
            return None;
        }
        let c = s[i];
        if c == '"' {
            proof {
                assert(out@ + Seq::<char>::empty() =~= out@);
            }
            return Some((out, i + 1));
        } else if c == '\\' {
            if i + 1 < s.len() && (s[i + 1] == '"' || s[i + 1] == '\\') {
                let ghost prev = out@;
                push_char(&mut out, s[i + 1]);
                proof {
                    match parse_string_body(s@, i + 2) {
                        Some((t, j)) => {
                            assert(prev + (seq![s@[i + 1]] + t) =~= out@ + t);
                        },
                        None => {},
                    }
                }
                i = i + 2;
            } else {
                return None;
            }
        } else {
            let ghost prev = out@;
            push_char(&mut out, c);
            proof {
                match parse_string_body(s@, i + 1) {
                    Some((t, j)) => {
                        assert(prev + (seq![s@[i as int]] + t) =~= out@ + t);
                    },
                    None => {},
                }
            }
            i = i + 1;
        }
    }
}

/// Whether `lit` stands at position `i` of the text.
fn scan_lit(s: &Vec<char>, i: usize, lit: &str) -> (r: bool)
    requires
        i <= s@.len(),
    ensures
        r == lit_at(s@, i as int, lit@),
{
    let n = s.len();
    let m = lit.unicode_len();
    if n - i < m {
        proof {
            assert(!lit_at(s@, i as int, lit@));
        }
        return false;
    }
    let mut k: usize = 0;
    while k < m
        invariant
            k <= m,
            m == lit@.len(),
            i + m <= n,
            n == s@.len(),
            forall|q: int| 0 <= q < k ==> s@[i + q] == lit@[q],
        decreases m - k,
    {
        if s[i + k] != lit.get_char(k) {
            proof {
                assert(s@.subrange(i as int, i + lit@.len())[k as int] == s@[i + k]);
                assert(s@.subrange(i as int, i + lit@.len()) != lit@);
            }
            return false;
        }
        k = k + 1;
    }
    proof {
        assert(s@.subrange(i as int, i + lit@.len()) =~= lit@);
    }
    true
}

/// Reads one `"key":"value"` member at `i`, mirroring [`parse_field`].
fn scan_field(s: &Vec<char>, i: usize, open_lit: &str, Ghost(key): Ghost<Seq<char>>) -> (r: Option<
    (String, usize),
>)
    requires
        i <= s@.len(),
        open_lit@ == field_open(key),
    ensures
        match r {
            Some(v) => parse_field(s@, i as int, key) == Some((v.0@, v.1 as int)) && i < v.1
                <= s@.len(),
            None => parse_field(s@, i as int, key) is None,
        },
{
    let n = s.len();
    if !scan_lit(s, i, open_lit) {
        return None;
    }
    let m = open_lit.unicode_len();
    proof {
        assert(i + m <= n);
    }
    scan_string_body(s, i + m)
}

/// Reads one object at `i`, mirroring [`parse_file`].
fn scan_file(s: &Vec<char>, i: usize) -> (r: Option<(StoredFile, usize)>)
    requires
        i <= s@.len(),
    ensures
        match r {
            Some(v) => parse_file(s@, i as int) == Some((v.0@, v.1 as int)) && i < v.1 <= s@.len(),
            None => parse_file(s@, i as int) is None,
        },
{
    let n = s.len();
    proof {
        reveal_strlit("{");
        reveal_strlit("\"file_id\":\"");
        reveal_strlit("\"filename\":\"");
        reveal_strlit("\"download_url\":\"");
        reveal_strlit("\"expires_at\":\"");
        reveal_strlit("\"uploaded_at\":\"");
        reveal_strlit(",");
        reveal_strlit("}");
        assert("{"@ =~= seq!['{']);
        assert(","@ =~= seq![',']);
        assert("}"@ =~= seq!['}']);
        assert("\"file_id\":\""@ =~= field_open(key_file_id()));
        assert("\"filename\":\""@ =~= field_open(key_filename()));
        assert("\"download_url\":\""@ =~= field_open(key_download_url()));
        assert("\"expires_at\":\""@ =~= field_open(key_expires_at()));
        assert("\"uploaded_at\":\""@ =~= field_open(key_uploaded_at()));
    }
    if !scan_lit(s, i, "{") {
        return None;
    }
    let r1 = scan_field(s, i + 1, "\"file_id\":\"", Ghost(key_file_id()));
    let (file_id, j1) = match r1 {
        None => {
            return None;
        },
        Some(v) => v,
    };
    if !scan_lit(s, j1, ",") {
        return None;
    }
    let r2 = scan_field(s, j1 + 1, "\"filename\":\"", Ghost(key_filename()));
    let (filename, j2) = match r2 {
        None => {
            return None;
        },
        Some(v) => v,
    };
    if !scan_lit(s, j2, ",") {
        return None;
    }
    let r3 = scan_field(s, j2 + 1, "\"download_url\":\"", Ghost(key_download_url()));
    let (download_url, j3) = match r3 {
        None => {
            return None;
        },
        Some(v) => v,
    };
    if !scan_lit(s, j3, ",") {
        return None;
    }
    let r4 = scan_field(s, j3 + 1, "\"expires_at\":\"", Ghost(key_expires_at()));
    let (expires_at, j4) = match r4 {
        None => {
            return None;
        },
        Some(v) => v,
    };
    if !scan_lit(s, j4, ",") {
        return None;
    }
    let r5 = scan_field(s, j4 + 1, "\"uploaded_at\":\"", Ghost(key_uploaded_at()));
    let (uploaded_at, j5) = match r5 {
        None => {
            return None;
        },
        Some(v) => v,
    };
    if !scan_lit(s, j5, "}") {
        return None;
    }
    let record = StoredFile { file_id, filename, download_url, expires_at, uploaded_at };
    Some((record, j5 + 1))
}

/// The list whose encoded form the given text is; `None` for any other
/// text.
pub fn decode_files(s: &str) -> (r: Option<Vec<StoredFile>>)
    ensures
        match r {
            Some(v) => spec_parse(s@) == Some(view_files(v@)),
            None => spec_parse(s@) is None,
        },
{
    let cs = str_to_chars(s);
    proof {
        reveal_strlit("[");
        reveal_strlit("]");
        reveal_strlit(",");
        assert("["@ =~= seq!['[']);
        assert("]"@ =~= seq![']']);
        assert(","@ =~= seq![',']);
    }
    if cs.len() < 2 {
        return None;
    }
    if !scan_lit(&cs, 0, "[") {
        proof {
            assert(s@[0] == '[' ==> s@.subrange(0, 1) =~= seq!['[']);
        }
        return None;
    }
    proof {
        assert(s@.subrange(0, 1)[0] == s@[0]);
    }
    if cs.len() == 2 {
        if scan_lit(&cs, 1, "]") {
            let out: Vec<StoredFile> = Vec::new();
            proof {
                assert(s@.subrange(1, 2)[0] == s@[1]);
                assert(view_files(out@) =~= Seq::<FileV>::empty());
            }
            return Some(out);
        } else {
            proof {
                assert(s@[1] == ']' ==> s@.subrange(1, 2) =~= seq![']']);
            }
            return None;
        }
    }
    let first = match scan_file(&cs, 1) {
        None => {
            return None;
        },
        Some(v) => v,
    };
    let mut out: Vec<StoredFile> = Vec::new();
    out.push(first.0);
    let mut i: usize = first.1;
    proof {
        assert(view_files(out@) =~= seq![first.0@]);
    }
    loop
        invariant
            i <= s@.len(),
            cs@ == s@,
            s@.len() == cs@.len(),
            spec_parse(s@) == (match parse_tail(s@, i as int) {
                Some(rest) => Some(view_files(out@) + rest),
                None => None::<Seq<FileV>>,
            }),
        decreases s@.len() - i,
    {
        if i >= cs.len() {
            return None;
        }
        let c = cs[i];
        if c == ']' {
            if i == cs.len() - 1 {
                proof {
                    assert(view_files(out@) + Seq::<FileV>::empty() =~= view_files(out@));
                }
                return Some(out);
            } else {
                return None;
            }
        } else if c == ',' {
            let next = match scan_file(&cs, i + 1) {
                None => {
                    return None;
                },
                Some(v) => v,
            };
            let ghost prev = view_files(out@);
            let ghost fv = next.0@;
            out.push(next.0);
            proof {
                assert(view_files(out@) =~= prev.push(fv));
                match parse_tail(s@, next.1 as int) {
                    Some(rest) => {
                        assert(prev + (seq![fv] + rest) =~= view_files(out@) + rest);
                    },
                    None => {},
                }
            }
            i = next.1;
        } else {
            return None;
        }
    }
}

} // verus!
