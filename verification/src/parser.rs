//! Audit line parsing: one raw text line to one structured [`Record`].
//!
//! A line is a sequence of space-separated `key=value` tokens. A value that
//! starts with a double quote runs to the matching quote and may contain
//! spaces; the quotes are stripped. The mandatory `msg=audit(<sec>.<millis>:<seq>)`
//! token yields the audit id, the `type=` token is resolved against the
//! record-type table, and every other pair lands verbatim, in order, in the
//! record's field map.

use crate::record::{
    first_key_at, rt_matches, AuditId, Record, RecordFields, RecordType,
};
use crate::text::{
    lemma_scan_len_is,
    lemma_scan_len, parse_u64, scan, scan_len, spec_parse_u64, str_eq_str,
};
use vstd::prelude::*;
use vstd::string::*;

verus! {

/// A parsed `key=value` pair, as character sequences.
pub type FieldPair = (Seq<char>, Seq<char>);

/// Why a line was rejected. All variants are recoverable: the parser reports
/// the error for the offending line and continues with the next one.
#[derive(Debug, Clone, Copy, PartialEq, Eq, Structural)]
pub enum ParseError {
    /// The line holds no token at all.
    EmptyLine,
    /// No well-formed `msg=audit(<sec>.<millis>:<seq>)` token was present.
    MissingAuditId,
    /// The token starting at this character offset is not a `key=value`
    /// pair: the `=` is missing, or a quoted value is unterminated or is
    /// followed by trailing garbage.
    MalformedKeyValue(usize),
}

/// The views of a vector of owned string pairs.
pub open spec fn pairs_view(v: Seq<(String, String)>) -> Seq<FieldPair> {
    v.map_values(|p: (String, String)| (p.0@, p.1@))
}

/// One token at the front of `s` (which starts with a non-space character):
/// its key, its value with any surrounding quotes stripped, and how many
/// characters it consumed. `off` is the token's offset in the whole line,
/// reported on error.
pub open spec fn spec_token(s: Seq<char>, off: int) -> Result<(Seq<char>, Seq<char>, int), ParseError> {
    let klen = scan_len(s, '=', ' ');
    if klen >= s.len() || s[klen as int] == ' ' {
        Err(ParseError::MalformedKeyValue(off as usize))
    } else {
        let key = s.take(klen as int);
        let rest = s.skip(klen as int + 1);
        if rest.len() > 0 && rest[0] == '"' {
            let qlen = scan_len(rest.skip(1), '"', '"');
            if qlen >= rest.skip(1).len() {
                Err(ParseError::MalformedKeyValue(off as usize))
            } else if qlen + 2 < rest.len() && rest[qlen as int + 2] != ' ' {
                Err(ParseError::MalformedKeyValue(off as usize))
            } else {
                Ok((key, rest.skip(1).take(qlen as int), klen as int + 1 + qlen as int + 2))
            }
        } else {
            let vlen = scan_len(rest, ' ', ' ');
            Ok((key, rest.take(vlen as int), klen as int + 1 + vlen as int))
        }
    }
}

/// A token consumes at least one and at most all of the characters.
pub proof fn lemma_spec_token_used(s: Seq<char>, off: int)
    requires
        s.len() > 0,
        s[0] != ' ',
    ensures
        spec_token(s, off) matches Ok(t) ==> 1 <= t.2 <= s.len(),
{
    lemma_scan_len(s, '=', ' ');
    let klen = scan_len(s, '=', ' ');
    if klen < s.len() && s[klen as int] != ' ' {
        let rest = s.skip(klen as int + 1);
        lemma_scan_len(rest, ' ', ' ');
        if rest.len() > 0 && rest[0] == '"' {
            lemma_scan_len(rest.skip(1), '"', '"');
        }
    }
}

/// All `key=value` pairs of the line, in order, spaces between tokens
/// skipped. `off` is the offset of `s` in the whole line.
pub open spec fn spec_fields(s: Seq<char>, off: int) -> Result<Seq<FieldPair>, ParseError>
    decreases s.len(),
    via spec_fields_decreases
{
    if s.len() == 0 {
        Ok(Seq::empty())
    } else if s[0] == ' ' {
        spec_fields(s.skip(1), off + 1)
    } else {
        match spec_token(s, off) {
            Err(e) => Err(e),
            Ok(t) => match spec_fields(s.skip(t.2), off + t.2) {
                Err(e) => Err(e),
                Ok(rest) => Ok(seq![(t.0, t.1)] + rest),
            },
        }
    }
}

#[via_fn]
proof fn spec_fields_decreases(s: Seq<char>, off: int) {
    if s.len() > 0 && s[0] != ' ' {
        lemma_spec_token_used(s, off);
    }
}

/// The value of the first field named `key`, if any.
pub open spec fn spec_lookup(fs: Seq<FieldPair>, key: Seq<char>) -> Option<Seq<char>> {
    if exists|i: int| first_key_at(fs, key, i) {
        Some(fs[choose|i: int| first_key_at(fs, key, i)].1)
    } else {
        None
    }
}

/// At most one position holds the first field of a given key.
pub proof fn lemma_first_key_unique(fs: Seq<FieldPair>, key: Seq<char>, i: int, j: int)
    requires
        first_key_at(fs, key, i),
        first_key_at(fs, key, j),
    ensures
        i == j,
{
    if i < j {
        assert(fs[i].0 == key);
    } else if j < i {
        assert(fs[j].0 == key);
    }
}

/// The audit id carried by a `msg=` value: exactly
/// `audit(<seconds>.<millis>:<sequence>)`, three decimal numbers, the
/// middle one fitting a `u32`, the outer two a `u64`.
pub open spec fn spec_audit_id(v: Seq<char>) -> Option<AuditId> {
    let p = "audit("@;
    if v.len() < p.len() + 1 || v.take(p.len() as int) != p || v[v.len() - 1] != ')' {
        None
    } else {
        let inner = v.subrange(p.len() as int, v.len() - 1);
        let a = scan_len(inner, '.', '.');
        if a >= inner.len() {
            None
        } else {
            let rest = inner.skip(a as int + 1);
            let b = scan_len(rest, ':', ':');
            if b >= rest.len() {
                None
            } else {
                match (
                    spec_parse_u64(inner.take(a as int)),
                    spec_parse_u64(rest.take(b as int)),
                    spec_parse_u64(rest.skip(b as int + 1)),
                ) {
                    (Some(sec), Some(ms), Some(sq)) => if ms <= u32::MAX {
                        Some(AuditId { seconds: sec, millis: ms as u32, sequence: sq })
                    } else {
                        None
                    },
                    _ => None,
                }
            }
        }
    }
}

/// A field the parser does not promote: neither the `msg` nor the `type`
/// pair.
pub open spec fn is_extra_field(f: FieldPair) -> bool {
    f.0 != "msg"@ && f.0 != "type"@
}

/// The pairs that stay in the record's field map, in order.
pub open spec fn extra_fields(fs: Seq<FieldPair>) -> Seq<FieldPair> {
    fs.filter(|f: FieldPair| is_extra_field(f))
}

/// What parsing a whole line yields: the raw `type=` string (empty when the
/// line has none), the audit id, and the unpromoted fields in order.
#[verifier::ext_equal]
pub struct RecordView {
    pub type_raw: Seq<char>,
    pub audit_id: AuditId,
    pub fields: Seq<FieldPair>,
}

/// The meaning of one raw line.
pub open spec fn spec_parse(s: Seq<char>) -> Result<RecordView, ParseError> {
    match spec_fields(s, 0) {
        Err(e) => Err(e),
        Ok(fs) => if fs.len() == 0 {
            Err(ParseError::EmptyLine)
        } else {
            match spec_lookup(fs, "msg"@) {
                None => Err(ParseError::MissingAuditId),
                Some(mv) => match spec_audit_id(mv) {
                    None => Err(ParseError::MissingAuditId),
                    Some(id) => Ok(RecordView {
                        type_raw: match spec_lookup(fs, "type"@) {
                            Some(tv) => tv,
                            None => Seq::empty(),
                        },
                        audit_id: id,
                        fields: extra_fields(fs),
                    }),
                },
            }
        },
    }
}

/// Tokenize from `off` characters into the line; `s` is the rest of the line.
fn take_fields(s: &str, off: usize) -> (r: Result<Vec<(String, String)>, ParseError>)
    requires
        off + s@.len() <= usize::MAX,
    ensures
        match r {
            Ok(fs) => spec_fields(s@, off as int) == Ok::<Seq<FieldPair>, ParseError>(
                pairs_view(fs@),
            ),
            Err(e) => spec_fields(s@, off as int) == Err::<Seq<FieldPair>, ParseError>(e),
        },
    decreases s@.len(),
{
    let len = s.unicode_len();
    if len == 0 {
        let out: Vec<(String, String)> = Vec::new();
        proof {
            assert(pairs_view(out@) =~= Seq::<FieldPair>::empty());
        }
        return Ok(out);
    }
    let c0 = s.get_char(0);
    if c0 == ' ' {
        let rest = s.substring_char(1, len);
        proof {
            assert(rest@ =~= s@.skip(1));
        }
        return take_fields(rest, off + 1);
    }
    let klen = scan(s, '=', ' ');
    proof {
        lemma_scan_len(s@, '=', ' ');
    }
    if klen >= len {
        return Err(ParseError::MalformedKeyValue(off));
    }
    if s.get_char(klen) == ' ' {
        return Err(ParseError::MalformedKeyValue(off));
    }
    let key = s.substring_char(0, klen);
    let rest = s.substring_char(klen + 1, len);
    proof {
        assert(key@ =~= s@.take(klen as int));
        assert(rest@ =~= s@.skip(klen + 1));
    }
    let rlen = rest.unicode_len();
    let quoted = rlen > 0 && rest.get_char(0) == '"';
    if quoted {
        let body = rest.substring_char(1, rlen);
        proof {
            assert(body@ =~= rest@.skip(1));
        }
        let qlen = scan(body, '"', '"');
        proof {
            lemma_scan_len(body@, '"', '"');
        }
        if qlen >= rlen - 1 {
            return Err(ParseError::MalformedKeyValue(off));
        }
        if qlen + 2 < rlen && rest.get_char(qlen + 2) != ' ' {
            return Err(ParseError::MalformedKeyValue(off));
        }
        let value = body.substring_char(0, qlen);
        proof {
            assert(value@ =~= rest@.skip(1).take(qlen as int));
        }
        let used = klen + 1 + qlen + 2;
        let tail = s.substring_char(used, len);
        proof {
            assert(tail@ =~= s@.skip(used as int));
            assert(spec_token(s@, off as int) == Ok::<(Seq<char>, Seq<char>, int), ParseError>(
                (key@, value@, used as int),
            ));
        }
        match take_fields(tail, off + used) {
            Err(e) => Err(e),
            Ok(mut out) => {
                let ghost pre = out@;
                out.insert(0, (key.to_owned(), value.to_owned()));
                proof {
                    assert(out@.skip(1) =~= pre);
                    assert(pairs_view(out@) =~~= seq![(key@, value@)] + pairs_view(pre));
                }
                Ok(out)
            },
        }
    } else {
        let vlen = scan(rest, ' ', ' ');
        proof {
            lemma_scan_len(rest@, ' ', ' ');
        }
        let value = rest.substring_char(0, vlen);
        proof {
            assert(value@ =~= rest@.take(vlen as int));
        }
        let used = klen + 1 + vlen;
        let tail = s.substring_char(used, len);
        proof {
            assert(tail@ =~= s@.skip(used as int));
            assert(spec_token(s@, off as int) == Ok::<(Seq<char>, Seq<char>, int), ParseError>(
                (key@, value@, used as int),
            ));
        }
        match take_fields(tail, off + used) {
            Err(e) => Err(e),
            Ok(mut out) => {
                let ghost pre = out@;
                out.insert(0, (key.to_owned(), value.to_owned()));
                proof {
                    assert(out@.skip(1) =~= pre);
                    assert(pairs_view(out@) =~~= seq![(key@, value@)] + pairs_view(pre));
                }
                Ok(out)
            },
        }
    }
}

/// Find the first pair named `key`.
fn lookup_pair<'a>(v: &'a Vec<(String, String)>, key: &str) -> (r: Option<&'a String>)
    ensures
        match r {
            Some(s) => spec_lookup(pairs_view(v@), key@) == Some(s@),
            None => spec_lookup(pairs_view(v@), key@) is None,
        },
{
    let ghost fs = pairs_view(v@);
    let n = v.len();
    let mut i: usize = 0;
    while i < n
        invariant
            0 <= i <= n,
            n == v@.len(),
            fs == pairs_view(v@),
            forall|j: int| 0 <= j < i ==> fs[j].0 != key@,
        decreases n - i,
    {
        if str_eq_str(v[i].0.as_str(), key) {
            proof {
                assert(first_key_at(fs, key@, i as int));
                let c = choose|k: int| first_key_at(fs, key@, k);
                lemma_first_key_unique(fs, key@, c, i as int);
            }
            return Some(&v[i].1);
        }
        i += 1;
    }
    proof {
        if exists|k: int| first_key_at(fs, key@, k) {
            let c = choose|k: int| first_key_at(fs, key@, k);
            assert(fs[c].0 == key@);
        }
    }
    None
}

/// Parse the numeric triple out of a `msg=` value.
fn parse_audit_token(v: &str) -> (r: Option<AuditId>)
    ensures
        r == spec_audit_id(v@),
{
    let vlen = v.unicode_len();
    let pat = "audit(";
    let plen = pat.unicode_len();
    if vlen <= plen {
        return None;
    }
    let pre = v.substring_char(0, plen);
    proof {
        assert(pre@ =~= v@.take(plen as int));
    }
    if !str_eq_str(pre, pat) {
        return None;
    }
    if v.get_char(vlen - 1) != ')' {
        return None;
    }
    let inner = v.substring_char(plen, vlen - 1);
    proof {
        assert(inner@ =~= v@.subrange(plen as int, vlen - 1));
    }
    let ilen = inner.unicode_len();
    let a = scan(inner, '.', '.');
    proof {
        lemma_scan_len(inner@, '.', '.');
    }
    if a >= ilen {
        return None;
    }
    let d1 = inner.substring_char(0, a);
    let rest = inner.substring_char(a + 1, ilen);
    proof {
        assert(d1@ =~= inner@.take(a as int));
        assert(rest@ =~= inner@.skip(a + 1));
    }
    let rlen = rest.unicode_len();
    let b = scan(rest, ':', ':');
    proof {
        lemma_scan_len(rest@, ':', ':');
    }
    if b >= rlen {
        return None;
    }
    let d2 = rest.substring_char(0, b);
    let d3 = rest.substring_char(b + 1, rlen);
    proof {
        assert(d2@ =~= rest@.take(b as int));
        assert(d3@ =~= rest@.skip(b + 1));
    }
    match (parse_u64(d1), parse_u64(d2), parse_u64(d3)) {
        (Some(sec), Some(ms), Some(sq)) => {
            if ms <= u32::MAX as u64 {
                Some(AuditId { seconds: sec, millis: ms as u32, sequence: sq })
            } else {
                None
            }
        },
        _ => None,
    }
}

/// Drop the promoted `msg` and `type` pairs; keep everything else in order.
fn keep_extra_fields(fs: Vec<(String, String)>) -> (r: RecordFields)
    ensures
        r@ == extra_fields(pairs_view(fs@)),
{
    let ghost full = pairs_view(fs@);
    let n = fs.len();
    let mut out = RecordFields::empty();
    let mut i: usize = 0;
    while i < n
        invariant
            0 <= i <= n,
            n == fs@.len(),
            full == pairs_view(fs@),
            out@ == extra_fields(full.take(i as int)),
        decreases n - i,
    {
        proof {
            assert(full.take(i + 1).drop_last() =~= full.take(i as int));
            assert(full.take(i + 1).last() == full[i as int]);
            assert(full[i as int] == (fs@[i as int].0@, fs@[i as int].1@));
        }
        let is_msg = str_eq_str(fs[i].0.as_str(), "msg");
        let is_type = str_eq_str(fs[i].0.as_str(), "type");
        if !is_msg && !is_type {
            out.push(fs[i].0.clone(), fs[i].1.clone());
            proof {
                reveal(Seq::filter);
                assert(extra_fields(full.take(i + 1)) == extra_fields(full.take(i as int)).push(
                    full[i as int],
                ));
            }
        } else {
            proof {
                reveal(Seq::filter);
                assert(extra_fields(full.take(i + 1)) == extra_fields(full.take(i as int)));
            }
        }
        i += 1;
    }
    proof {
        assert(full.take(n as int) =~= full);
    }
    out
}

/// Convert one raw audit line into a structured record, or say exactly why
/// that cannot be done. A missing or malformed `msg=audit(...)` token is
/// `MissingAuditId`; a line with no tokens is `EmptyLine`; a token that is
/// no `key=value` pair is `MalformedKeyValue` with the token's character
/// offset. A `type=` string the table does not know still parses, as
/// `RecordType::Unknown`.
pub fn parse_audit_record(line: &str) -> (r: Result<Record, ParseError>)
    ensures
        match r {
            Ok(rec) => spec_parse(line@) matches Ok(rv) && rec.audit_id == rv.audit_id
                && rt_matches(rec.record_type, rv.type_raw) && rec.fields@ == rv.fields,
            Err(e) => spec_parse(line@) == Err::<RecordView, ParseError>(e),
        },
{
    let total = line.unicode_len();
    if total == 0 {
        return Err(ParseError::EmptyLine);
    }
    match take_fields(line, 0) {
        Err(e) => Err(e),
        Ok(fs) => {
            if fs.len() == 0 {
                return Err(ParseError::EmptyLine);
            }
            let id_opt = match lookup_pair(&fs, "msg") {
                None => None,
                Some(mv) => parse_audit_token(mv.as_str()),
            };
            match id_opt {
                None => Err(ParseError::MissingAuditId),
                Some(id) => {
                    let record_type = match lookup_pair(&fs, "type") {
                        Some(tv) => RecordType::resolve(tv.as_str()),
                        None => {
                            proof {
                                crate::record::lemma_known_types_nonempty();
                            }
                            RecordType::Unknown(String::new())
                        },
                    };
                    let fields = keep_extra_fields(fs);
                    Ok(Record { record_type, audit_id: id, fields })
                },
            }
        },
    }
}


/// Parsing round-trip: a line that tokenizes into at least one field and
/// carries a well-formed `msg=audit(<sec>.<millis>:<seq>)` value parses
/// successfully; the record's audit id is exactly that numeric triple, the
/// raw `type=` string goes to the table lookup unchanged (empty when the
/// line has none), and the field map keeps every other pair in order.
pub proof fn lemma_parse_round_trip(s: Seq<char>, fs: Seq<FieldPair>, mv: Seq<char>, id: AuditId)
    requires
        spec_fields(s, 0) == Ok::<Seq<FieldPair>, ParseError>(fs),
        fs.len() > 0,
        spec_lookup(fs, "msg"@) == Some(mv),
        spec_audit_id(mv) == Some(id),
    ensures
        spec_parse(s) matches Ok(rv) && rv.audit_id == id && rv.fields == extra_fields(fs)
            && rv.type_raw == (match spec_lookup(fs, "type"@) {
            Some(tv) => tv,
            None => Seq::<char>::empty(),
        }),
{
}

/// Quoting correctness: a token whose value stands in double quotes is one
/// field, its value the quoted text verbatim, spaces included — never
/// split at the spaces.
pub proof fn lemma_quoted_value(k: Seq<char>, v: Seq<char>, off: int)
    requires
        k.len() > 0,
        forall|i: int| 0 <= i < k.len() ==> k[i] != '=' && k[i] != ' ',
        forall|i: int| 0 <= i < v.len() ==> v[i] != '"',
    ensures
        spec_fields(k + seq!['=', '"'] + v + seq!['"'], off) == Ok::<Seq<FieldPair>, ParseError>(
            seq![(k, v)],
        ),
{
    let s = k + seq!['=', '"'] + v + seq!['"'];
    assert(s.len() == k.len() + v.len() + 3);
    assert(forall|i: int| 0 <= i < k.len() ==> s[i] == k[i]);
    assert(s[k.len() as int] == '=');
    assert(s[k.len() as int + 1] == '"');
    assert(forall|i: int| 0 <= i < v.len() ==> s[k.len() as int + 2 + i] == v[i]);
    assert(s[s.len() - 1] == '"');
    assert(s[0] != ' ');
    lemma_scan_len_is(s, '=', ' ', k.len() as int);
    let rest = s.skip(k.len() as int + 1);
    assert(rest.len() == v.len() + 2);
    assert(forall|i: int| 0 <= i < rest.len() ==> rest[i] == s[k.len() as int + 1 + i]);
    assert(rest[0] == '"');
    let body = rest.skip(1);
    assert(forall|i: int| 0 <= i < body.len() ==> body[i] == rest[1 + i]);
    assert(forall|i: int| 0 <= i < v.len() ==> body[i] == v[i]);
    assert(body[v.len() as int] == '"');
    lemma_scan_len_is(body, '"', '"', v.len() as int);
    assert(body.take(v.len() as int) =~= v);
    assert(s.take(k.len() as int) =~= k);
    assert(spec_token(s, off) == Ok::<(Seq<char>, Seq<char>, int), ParseError>(
        (k, v, s.len() as int),
    ));
    assert(s.skip(s.len() as int) =~= Seq::<char>::empty());
    assert(spec_fields(Seq::<char>::empty(), off + s.len()) == Ok::<Seq<FieldPair>, ParseError>(
        Seq::<FieldPair>::empty(),
    ));
    assert(seq![(k, v)] + Seq::<FieldPair>::empty() =~= seq![(k, v)]);
}

} // verus!
