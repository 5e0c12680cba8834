//! The search accessor's compute side: validating the shape of the engine's
//! response and parsing hit identifiers.
//!
//! The engine reports each hit with a string identifier and a relevance
//! score. A response without a hit array, a hit without an identifier or
//! score, or an identifier that is not a decimal 32-bit integer is a hard
//! failure of the whole request — malformed responses are never skipped
//! silently.

use vstd::prelude::*;
use vstd::string::StringSliceAdditionalSpecFns;
use vstd::utf8::encode_utf8;
use crate::model::AppError;
use crate::model::RawSearchHit;
use crate::model::SearchHit;

verus! {

/// At most this many hits are requested from the search engine per query.
pub const SEARCH_HIT_LIMIT: i64 = 10;

/// The index-initialization step creates the index only when the engine
/// reports it absent — create-if-absent, never recreate.
pub fn index_needs_creation(status: u16) -> (r: bool)
    ensures
        r <==> status == 404,
{
    status == 404
}

/// An ASCII decimal digit.
pub open spec fn is_digit(b: u8) -> bool {
    48 <= b <= 57
}

/// The value of an ASCII decimal digit.
pub open spec fn digit_val(b: u8) -> nat
    recommends
        is_digit(b),
{
    (b - 48) as nat
}

pub open spec fn all_digits(s: Seq<u8>) -> bool {
    forall|k: int| 0 <= k < s.len() ==> is_digit(#[trigger] s[k])
}

/// The value of a digit string, most significant digit first.
pub open spec fn dec_value(s: Seq<u8>) -> nat
    decreases s.len(),
{
    if s.len() == 0 {
        0
    } else {
        dec_value(s.drop_last()) * 10 + digit_val(s.last())
    }
}

/// The digits of a decimal integer literal: everything after an optional
/// leading sign.
pub open spec fn digit_part(s: Seq<u8>) -> Seq<u8> {
    if s.len() > 0 && (s[0] == 45 || s[0] == 43) {
        s.drop_first()
    } else {
        s
    }
}

pub open spec fn has_minus_sign(s: Seq<u8>) -> bool {
    s.len() > 0 && s[0] == 45
}

/// What parsing a decimal 32-bit integer from the given UTF-8 bytes yields:
/// an optional sign followed by one or more digits, within the `i32` range;
/// anything else is no value. This is the acceptance rule of `str::parse`
/// for `i32`.
pub open spec fn parse_i32(s: Seq<u8>) -> Option<i32> {
    let digits = digit_part(s);
    if digits.len() == 0 || !all_digits(digits) {
        None
    } else if has_minus_sign(s) {
        if dec_value(digits) <= 2147483648 {
            Some((-(dec_value(digits) as int)) as i32)
        } else {
            None
        }
    } else {
        if dec_value(digits) <= 2147483647 {
            Some(dec_value(digits) as i32)
        } else {
            None
        }
    }
}

/// A digit string is worth at least any of its prefixes.
proof fn lemma_dec_value_prefix(s: Seq<u8>, k: int)
    requires
        0 <= k <= s.len(),
    ensures
        dec_value(s.take(k)) <= dec_value(s),
    decreases s.len() - k,
{
    if k < s.len() {
        assert(s.take(k + 1).drop_last() =~= s.take(k));
        assert(dec_value(s.take(k)) <= dec_value(s.take(k + 1)));
        lemma_dec_value_prefix(s, k + 1);
    } else {
        assert(s.take(k) =~= s);
    }
}

/// Parses a release identifier from the decimal form the search engine
/// reports it in.
pub fn parse_release_id(s: &str) -> (r: Option<i32>)
    ensures
        r == parse_i32(s.spec_bytes()),
{
    let b = s.as_bytes();
    let n = b.len();
    let mut i: usize = 0;
    let mut neg = false;
    if n > 0 && (b[0] == 45 || b[0] == 43) {
        neg = b[0] == 45;
        i = 1;
    }
    if i == n {
        return None;
    }
    let ghost start = i as int;
    let ghost digits = digit_part(b@);
    proof {
        assert(digits =~= b@.skip(start));
    }
    let mut acc: u64 = 0;
    while i < n
        invariant
            b@ == s.spec_bytes(),
            start <= i <= n,
            n == b@.len(),
            0 <= start <= 1,
            start < n,
            digits == digit_part(b@),
            digits =~= b@.skip(start),
            neg == has_minus_sign(b@),
            forall|k: int| start <= k < i ==> is_digit(#[trigger] b@[k]),
            acc == dec_value(b@.subrange(start, i as int)),
            acc <= 2147483648,
        decreases n - i,
    {
        let c = b[i];
        if c < 48 || c > 57 {
            proof {
                assert(digits[i - start] == b@[i as int]);
                assert(!all_digits(digits));
            }
            return None;
        }
        acc = acc * 10 + ((c - 48) as u64);
        proof {
            assert(b@.subrange(start, i + 1).drop_last() =~= b@.subrange(start, i as int));
            assert(b@.subrange(start, i + 1).last() == b@[i as int]);
        }
        i += 1;
        proof {
            assert(acc == dec_value(b@.subrange(start, i as int)));
        }
        if acc > 2147483648 {
            proof {
                assert(digits.take(i as int - start) =~= b@.subrange(start, i as int));
                lemma_dec_value_prefix(digits, i as int - start);
                assert(dec_value(digits) > 2147483648);
                assert(parse_i32(b@) is None);
            }
            return None;
        }
    }
    proof {
        assert(b@.subrange(start, n as int) =~= digits);
        assert(acc == dec_value(digits));
        assert(all_digits(digits));
        assert(digits.len() > 0);
    }
    if neg {
        if acc == 2147483648 {
            Some(i32::MIN)
        } else {
            Some(-(acc as i32))
        }
    } else {
        if acc > 2147483647 {
            None
        } else {
            Some(acc as i32)
        }
    }
}

/// The hexadecimal digit character (lower case) of a value below sixteen,
/// as a byte.
pub open spec fn hex_digit(d: int) -> u8
    recommends
        0 <= d < 16,
{
    if d < 10 {
        (48 + d) as u8
    } else {
        (87 + d) as u8
    }
}

/// How one byte of a string appears inside a JSON string literal: quote and
/// backslash are escaped, control bytes become `\u00XX`, and every other
/// byte — the bytes of multi-byte characters included — stands as itself.
pub open spec fn escape_byte(b: u8) -> Seq<u8> {
    if b == 34 {
        seq![92u8, 34u8]
    } else if b == 92 {
        seq![92u8, 92u8]
    } else if b < 32 {
        seq![92u8, 117u8, 48u8, 48u8, hex_digit(b as int / 16), hex_digit(b as int % 16)]
    } else {
        seq![b]
    }
}

/// A byte string escaped for inclusion in a JSON string literal.
pub open spec fn json_escaped(s: Seq<u8>) -> Seq<u8>
    decreases s.len(),
{
    if s.len() == 0 {
        Seq::empty()
    } else {
        json_escaped(s.drop_last()) + escape_byte(s.last())
    }
}

/// The body of the search request for a query string: a fuzzy multi-match
/// over description (boosted), readme, declared outputs, repository name
/// (boosted) and owner name (boosted), with the query embedded as a JSON
/// string literal.
pub open spec fn search_request_body_spec(q: Seq<char>) -> Seq<u8> {
    encode_utf8("{\"query\":{\"multi_match\":{\"query\":\""@) + json_escaped(encode_utf8(q))
        + encode_utf8(
        "\",\"fuzziness\":\"AUTO\",\"fields\":[\"description^2\",\"readme\",\"outputs\",\"repo^2\",\"owner^2\"]}}}"@,
    )
}

fn push_escaped_byte(out: &mut Vec<u8>, b: u8)
    ensures
        final(out)@ == old(out)@ + escape_byte(b),
{
    if b == 34 {
        out.push(92);
        out.push(34);
        proof {
            assert(out@ =~= old(out)@ + escape_byte(b));
        }
    } else if b == 92 {
        out.push(92);
        out.push(92);
        proof {
            assert(out@ =~= old(out)@ + escape_byte(b));
        }
    } else if b < 32 {
        out.push(92);
        out.push(117);
        out.push(48);
        out.push(48);
        let hi = b / 16;
        let lo = b % 16;
        out.push(if hi < 10 { 48 + hi } else { 87 + hi });
        out.push(if lo < 10 { 48 + lo } else { 87 + lo });
        proof {
            assert(out@ =~= old(out)@ + escape_byte(b));
        }
    } else {
        out.push(b);
        proof {
            assert(out@ =~= old(out)@ + escape_byte(b));
        }
    }
}

/// Builds the search request body for a query string, as
/// [`search_request_body_spec`] gives it.
pub fn search_request_body(q: &str) -> (r: Vec<u8>)
    ensures
        r@ == search_request_body_spec(q@),
{
    let mut out: Vec<u8> = Vec::new();
    out.extend_from_slice("{\"query\":{\"multi_match\":{\"query\":\"".as_bytes());
    let qb = q.as_bytes();
    let ghost prefix = out@;
    let mut i: usize = 0;
    proof {
        assert(json_escaped(qb@.take(0)) =~= Seq::<u8>::empty());
        assert(out@ =~= prefix + json_escaped(qb@.take(0)));
    }
    while i < qb.len()
        invariant
            i <= qb@.len(),
            qb@ == q.spec_bytes(),
            prefix == encode_utf8("{\"query\":{\"multi_match\":{\"query\":\""@),
            out@ == prefix + json_escaped(qb@.take(i as int)),
        decreases qb@.len() - i,
    {
        let b = qb[i];
        push_escaped_byte(&mut out, b);
        proof {
            assert(qb@.take(i + 1).drop_last() =~= qb@.take(i as int));
            assert(qb@.take(i + 1).last() == qb@[i as int]);
            assert(out@ =~= prefix + json_escaped(qb@.take(i + 1)));
        }
        i += 1;
    }
    proof {
        assert(qb@.take(qb@.len() as int) =~= qb@);
    }
    out.extend_from_slice(
        "\",\"fuzziness\":\"AUTO\",\"fields\":[\"description^2\",\"readme\",\"outputs\",\"repo^2\",\"owner^2\"]}}}".as_bytes(),
    );
    out
}

/// A raw hit carries everything a hit must carry: an identifier string that
/// parses as a 32-bit integer, and a score.
pub open spec fn hit_wellformed(h: RawSearchHit) -> bool {
    &&& h.id is Some
    &&& parse_i32(encode_utf8(h.id->0@)) is Some
    &&& h.score is Some
}

/// The parsed form of a well-formed raw hit.
pub open spec fn hit_value(h: RawSearchHit) -> SearchHit {
    SearchHit { id: parse_i32(encode_utf8(h.id->0@))->0, score: h.score->0 }
}

/// Validates the shape of a search-engine response and parses its hits.
///
/// `raw` is the hit array of the response, or nothing when the response had
/// no such array. Success is owed exactly when the array is present and
/// every hit is well-formed; any shape violation fails the whole request
/// with an `ExternalService` error rather than a partial result.
pub fn parse_search_hits(raw: Option<Vec<RawSearchHit>>) -> (r: Result<Vec<SearchHit>, AppError>)
    ensures
        r is Ok <==> (raw is Some && forall|k: int|
            0 <= k < raw->0@.len() ==> hit_wellformed(#[trigger] raw->0@[k])),
        r is Ok ==> r->Ok_0@ == raw->0@.map_values(|h: RawSearchHit| hit_value(h)),
        r is Err ==> r->Err_0 is ExternalService,
        r is Err ==> r->Err_0.message_spec().len() > 0,
        raw is None ==> r is Err && r->Err_0->ExternalService_0@
            == "failed to extract hits from open search response"@,
{
    let v = match &raw {
        None => {
            proof {
                reveal_strlit("failed to extract hits from open search response");
            }
            return Err(
                AppError::ExternalService(
                    "failed to extract hits from open search response".to_owned(),
                ),
            );
        },
        Some(v) => v,
    };
    let mut hits: Vec<SearchHit> = Vec::new();
    let mut i: usize = 0;
    proof {
        assert(hits@ =~= v@.take(0).map_values(|h: RawSearchHit| hit_value(h)));
    }
    while i < v.len()
        invariant
            raw is Some,
            raw->0@ == v@,
            i <= v@.len(),
            forall|k: int| 0 <= k < i ==> hit_wellformed(#[trigger] v@[k]),
            hits@ == v@.take(i as int).map_values(|h: RawSearchHit| hit_value(h)),
        decreases v@.len() - i,
    {
        let h = &v[i];
        let id_val = match &h.id {
            None => {
                proof {
                    reveal_strlit("failed to read id as string from open search hit");
                    assert(!hit_wellformed(raw->0@[i as int]));
                }
                return Err(
                    AppError::ExternalService(
                        "failed to read id as string from open search hit".to_owned(),
                    ),
                );
            },
            Some(s) => {
                match parse_release_id(s.as_str()) {
                    None => {
                        proof {
                            reveal_strlit("failed to parse id from open search hit");
                            assert(!hit_wellformed(raw->0@[i as int]));
                        }
                        return Err(
                            AppError::ExternalService(
                                "failed to parse id from open search hit".to_owned(),
                            ),
                        );
                    },
                    Some(x) => x,
                }
            },
        };
        let score = match h.score {
            None => {
                proof {
                    reveal_strlit("failed to parse score from open search hit");
                    assert(!hit_wellformed(raw->0@[i as int]));
                }
                return Err(
                    AppError::ExternalService(
                        "failed to parse score from open search hit".to_owned(),
                    ),
                );
            },
            Some(sc) => sc,
        };
        hits.push(SearchHit { id: id_val, score });
        proof {
            assert(v@.take(i + 1).drop_last() =~= v@.take(i as int));
            assert(v@.take(i + 1).map_values(|h: RawSearchHit| hit_value(h)) =~= v@.take(
                i as int,
            ).map_values(|h: RawSearchHit| hit_value(h)).push(hit_value(v@[i as int])));
        }
        i += 1;
    }
    proof {
        assert(v@.take(v@.len() as int) =~= v@);
    }
    Ok(hits)
}

} // verus!
