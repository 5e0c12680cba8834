//! Building the relational query for hydrating releases by identifier.
//!
//! The identifier list of the `IN (...)` clause is rendered as a
//! comma-joined list of decimal literals. This is safe only because release
//! identifiers are statically typed integers — the pattern must not be
//! generalized to free-text inputs — and an empty identifier set never
//! produces a query at all, which both avoids a malformed `IN ()` clause and
//! spares the round-trip to the store.

use vstd::prelude::*;
use vstd::string::StringExecFns;

verus! {

/// The decimal digit character of a value below ten.
pub open spec fn digit_char(d: int) -> char
    recommends
        0 <= d < 10,
{
    if d == 0 {
        '0'
    } else if d == 1 {
        '1'
    } else if d == 2 {
        '2'
    } else if d == 3 {
        '3'
    } else if d == 4 {
        '4'
    } else if d == 5 {
        '5'
    } else if d == 6 {
        '6'
    } else if d == 7 {
        '7'
    } else if d == 8 {
        '8'
    } else {
        '9'
    }
}

/// The decimal rendering of a non-negative integer, most significant digit
/// first and without leading zeros.
pub open spec fn dec_chars(n: int) -> Seq<char>
    recommends
        n >= 0,
    decreases n,
{
    if n < 10 {
        seq![digit_char(n)]
    } else {
        dec_chars(n / 10).push(digit_char(n % 10))
    }
}

/// The decimal rendering of a release identifier, with a leading minus sign
/// for a negative value.
pub open spec fn id_chars(id: i32) -> Seq<char> {
    if id < 0 {
        seq!['-'] + dec_chars(-(id as int))
    } else {
        dec_chars(id as int)
    }
}

/// The comma-joined decimal rendering of a sequence of release identifiers.
pub open spec fn joined_ids(ids: Seq<i32>) -> Seq<char>
    decreases ids.len(),
{
    if ids.len() == 0 {
        Seq::empty()
    } else if ids.len() == 1 {
        id_chars(ids[0])
    } else {
        joined_ids(ids.drop_last()) + seq![','] + id_chars(ids.last())
    }
}

fn push_digit(out: &mut String, d: u32)
    requires
        d < 10,
    ensures
        final(out)@ == old(out)@.push(digit_char(d as int)),
{
    if d == 0 {
        proof {
            reveal_strlit("0");
        }
        out.append("0");
        proof {
            assert(out@ =~= old(out)@.push('0'));
        }
    } else if d == 1 {
        proof {
            reveal_strlit("1");
        }
        out.append("1");
        proof {
            assert(out@ =~= old(out)@.push('1'));
        }
    } else if d == 2 {
        proof {
            reveal_strlit("2");
        }
        out.append("2");
        proof {
            assert(out@ =~= old(out)@.push('2'));
        }
    } else if d == 3 {
        proof {
            reveal_strlit("3");
        }
        out.append("3");
        proof {
            assert(out@ =~= old(out)@.push('3'));
        }
    } else if d == 4 {
        proof {
            reveal_strlit("4");
        }
        out.append("4");
        proof {
            assert(out@ =~= old(out)@.push('4'));
        }
    } else if d == 5 {
        proof {
            reveal_strlit("5");
        }
        out.append("5");
        proof {
            assert(out@ =~= old(out)@.push('5'));
        }
    } else if d == 6 {
        proof {
            reveal_strlit("6");
        }
        out.append("6");
        proof {
            assert(out@ =~= old(out)@.push('6'));
        }
    } else if d == 7 {
        proof {
            reveal_strlit("7");
        }
        out.append("7");
        proof {
            assert(out@ =~= old(out)@.push('7'));
        }
    } else if d == 8 {
        proof {
            reveal_strlit("8");
        }
        out.append("8");
        proof {
            assert(out@ =~= old(out)@.push('8'));
        }
    } else {
        proof {
            reveal_strlit("9");
        }
        out.append("9");
        proof {
            assert(out@ =~= old(out)@.push('9'));
        }
    }
}

/// The digit-value sequence of a collection loop read back most recent
/// first, as characters.
spec fn rev_digit_chars(ds: Seq<u32>) -> Seq<char> {
    Seq::new(ds.len(), |k: int| digit_char(ds[ds.len() - 1 - k] as int))
}

fn push_u32(out: &mut String, n: u32)
    ensures
        final(out)@ == old(out)@ + dec_chars(n as int),
{
    let ghost start = out@;
    let mut digits: Vec<u32> = Vec::new();
    digits.push(n % 10);
    let mut m: u32 = n / 10;
    proof {
        if m > 0 {
            assert(rev_digit_chars(digits@) =~= seq![digit_char((n % 10) as int)]);
            assert(dec_chars(n as int) =~= dec_chars(m as int) + rev_digit_chars(digits@));
        } else {
            assert(dec_chars(n as int) =~= rev_digit_chars(digits@));
        }
    }
    while m > 0
        invariant
            digits@.len() >= 1,
            forall|k: int| 0 <= k < digits@.len() ==> #[trigger] digits@[k] < 10,
            m > 0 ==> dec_chars(n as int) == dec_chars(m as int) + rev_digit_chars(digits@),
            m == 0 ==> dec_chars(n as int) == rev_digit_chars(digits@),
            out@ == start,
        decreases m,
    {
        let ghost ds = digits@;
        let d = m % 10;
        digits.push(d);
        m = m / 10;
        proof {
            assert(rev_digit_chars(digits@) =~= seq![digit_char(d as int)] + rev_digit_chars(ds));
            if m > 0 {
                assert(dec_chars(n as int) =~= dec_chars(m as int) + rev_digit_chars(digits@));
            } else {
                assert(dec_chars(n as int) =~= rev_digit_chars(digits@));
            }
        }
    }
    let ghost rev = rev_digit_chars(digits@);
    let mut idx: usize = digits.len();
    proof {
        assert(rev.take(0) =~= Seq::empty());
        assert(out@ =~= start + rev.take(0));
    }
    while idx > 0
        invariant
            idx <= digits@.len(),
            forall|k: int| 0 <= k < digits@.len() ==> #[trigger] digits@[k] < 10,
            rev == rev_digit_chars(digits@),
            dec_chars(n as int) == rev,
            out@ == start + rev.take(digits@.len() - idx),
        decreases idx,
    {
        idx -= 1;
        let d = digits[idx];
        push_digit(out, d);
        proof {
            let count = digits@.len() - idx - 1;
            assert(rev[count] == digit_char(d as int));
            assert(rev.take(count + 1) =~= rev.take(count).push(rev[count]));
            assert(out@ =~= start + rev.take(count + 1));
        }
    }
    proof {
        assert(rev.take(digits@.len() as int) =~= rev);
    }
}

fn push_id(out: &mut String, id: i32)
    ensures
        final(out)@ == old(out)@ + id_chars(id),
{
    if id < 0 {
        proof {
            reveal_strlit("-");
        }
        out.append("-");
        let mag: u32 = (-(id as i64)) as u32;
        push_u32(out, mag);
        proof {
            assert(out@ =~= old(out)@ + id_chars(id));
        }
    } else {
        push_u32(out, id as u32);
    }
}

proof fn lemma_joined_step(ids: Seq<i32>, i: int)
    requires
        0 <= i < ids.len(),
    ensures
        i == 0 ==> joined_ids(ids.take(1)) == id_chars(ids[0]),
        i > 0 ==> joined_ids(ids.take(i + 1)) == joined_ids(ids.take(i)) + seq![','] + id_chars(
            ids[i],
        ),
{
    let t = ids.take(i + 1);
    if i == 0 {
        assert(t.len() == 1);
        assert(t[0] == ids[0]);
    } else {
        assert(t.drop_last() =~= ids.take(i));
        assert(t.last() == ids[i]);
    }
}

/// The parameter list of the hydration query's `IN (...)` clause: the
/// comma-joined decimal rendering of the identifiers, or nothing at all for
/// an empty identifier set — an empty set must not reach the store.
pub fn in_clause(ids: &Vec<i32>) -> (r: Option<String>)
    ensures
        r is None <==> ids@.len() == 0,
        r matches Some(s) ==> s@ == joined_ids(ids@),
{
    if ids.len() == 0 {
        return None;
    }
    let mut out = String::new();
    let mut i: usize = 0;
    proof {
        assert(out@ =~= joined_ids(ids@.take(0)));
    }
    while i < ids.len()
        invariant
            i <= ids@.len(),
            ids@.len() > 0,
            out@ == joined_ids(ids@.take(i as int)),
        decreases ids@.len() - i,
    {
        let ghost sofar = out@;
        if i > 0 {
            proof {
                reveal_strlit(",");
            }
            out.append(",");
        }
        let id = ids[i];
        push_id(&mut out, id);
        proof {
            lemma_joined_step(ids@, i as int);
            if i == 0 {
                assert(out@ =~= joined_ids(ids@.take(i + 1)));
            } else {
                assert(","@ =~= seq![',']);
                assert(out@ =~= sofar + seq![','] + id_chars(ids@[i as int]));
                assert(out@ =~= joined_ids(ids@.take(i + 1)));
            }
        }
        i += 1;
    }
    proof {
        assert(ids@.take(ids@.len() as int) =~= ids@);
    }
    Some(out)
}

/// The hydration query of the search path: selects the compact release shape
/// for exactly the given identifiers, or no query at all when the set is
/// empty.
pub fn flakes_by_ids_query(ids: &Vec<i32>) -> (r: Option<String>)
    ensures
        r is None <==> ids@.len() == 0,
        r matches Some(q) ==> q@ == (
        "SELECT release.id AS id, githubowner.name AS owner, githubrepo.name AS repo, release.version AS version, release.description AS description, release.created_at AS created_at FROM release INNER JOIN githubrepo ON githubrepo.id = release.repo_id INNER JOIN githubowner ON githubowner.id = githubrepo.owner_id WHERE release.id IN ("@
            + joined_ids(ids@) + ")"@),
{
    match in_clause(ids) {
        None => None,
        Some(list) => {
            let mut q =
                "SELECT release.id AS id, githubowner.name AS owner, githubrepo.name AS repo, release.version AS version, release.description AS description, release.created_at AS created_at FROM release INNER JOIN githubrepo ON githubrepo.id = release.repo_id INNER JOIN githubowner ON githubowner.id = githubrepo.owner_id WHERE release.id IN (".to_owned();
            q.append(list.as_str());
            q.append(")");
            Some(q)
        },
    }
}

} // verus!
