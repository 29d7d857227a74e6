//! Query construction: a free-form chat command is split into
//! whitespace-delimited tokens, each token is stripped of surrounding commas
//! and classified as a numeric identifier or a login name, and the two
//! partitions form a batched directory query.

use vstd::prelude::*;
use vstd::string::*;

verus! {

/// Why no query could be built from the command text.
#[derive(Clone, Copy, Debug, PartialEq, Eq, Structural)]
pub enum QueryError {
    /// Every token was empty after trimming: nothing to look up.
    NoIdentifiers,
}

/// A batched directory query: the identifiers named by one command,
/// partitioned into numeric ids and login names, each partition in the
/// order the tokens appeared in the command text.
#[derive(Debug)]
pub struct BatchQuery {
    pub numeric_ids: Vec<String>,
    pub login_names: Vec<String>,
}

/// The characters the tokenizer treats as whitespace: exactly the Unicode
/// white-space characters.
pub open spec fn is_space(c: char) -> bool {
    let u = c as u32;
    (9 <= u && u <= 13) || u == 32 || u == 0x85 || u == 0xa0 || u == 0x1680 || (0x2000 <= u
        && u <= 0x200a) || u == 0x2028 || u == 0x2029 || u == 0x202f || u == 0x205f || u == 0x3000
}

/// One pass over the text, left to right: the tokens completed so far and
/// the run of non-whitespace characters still open at the end.
pub open spec fn scan(s: Seq<char>) -> (Seq<Seq<char>>, Seq<char>)
    decreases s.len(),
{
    if s.len() == 0 {
        (Seq::empty(), Seq::empty())
    } else {
        let prev = scan(s.drop_last());
        let c = s.last();
        if is_space(c) {
            if prev.1.len() > 0 {
                (prev.0.push(prev.1), Seq::empty())
            } else {
                (prev.0, Seq::empty())
            }
        } else {
            (prev.0, prev.1.push(c))
        }
    }
}

/// The whitespace-delimited tokens of the text, in order; empty tokens
/// cannot arise.
pub open spec fn tokens(s: Seq<char>) -> Seq<Seq<char>> {
    let full = scan(s);
    if full.1.len() > 0 {
        full.0.push(full.1)
    } else {
        full.0
    }
}

/// A token with every leading and trailing comma removed.
pub open spec fn trim_commas(t: Seq<char>) -> Seq<char>
    decreases t.len(),
{
    if t.len() > 0 && t[0] == ',' {
        trim_commas(t.drop_first())
    } else if t.len() > 0 && t.last() == ',' {
        trim_commas(t.drop_last())
    } else {
        t
    }
}

/// An ASCII decimal digit.
pub open spec fn is_digit(c: char) -> bool {
    48 <= c as u32 && c as u32 <= 57
}

pub open spec fn digit_val(c: char) -> int {
    c as u32 - 48
}

pub open spec fn all_digits(t: Seq<char>) -> bool {
    forall|i: int| 0 <= i < t.len() ==> is_digit(t[i])
}

/// The number a digit string denotes in base 10.
pub open spec fn numeric_value(t: Seq<char>) -> int
    decreases t.len(),
{
    if t.len() == 0 {
        0
    } else {
        numeric_value(t.drop_last()) * 10 + digit_val(t.last())
    }
}

/// A non-empty digit string whose value fits an unsigned 32-bit integer.
pub open spec fn fitting_digits(t: Seq<char>) -> bool {
    t.len() > 0 && all_digits(t) && numeric_value(t) <= u32::MAX as int
}

/// A token counts as a numeric identifier when it parses as an unsigned
/// 32-bit integer: a digit string, optionally preceded by one plus sign,
/// whose value fits; anything else is a login name.
pub open spec fn is_numeric(t: Seq<char>) -> bool {
    if t.len() > 0 && t[0] == '+' {
        fitting_digits(t.drop_first())
    } else {
        fitting_digits(t)
    }
}

/// Trims and classifies a token list: each token's trimmed value joins the
/// numeric-id partition or the login-name partition, or is dropped when
/// empty; order within each partition follows the token order.
pub open spec fn classify(toks: Seq<Seq<char>>) -> (Seq<Seq<char>>, Seq<Seq<char>>)
    decreases toks.len(),
{
    if toks.len() == 0 {
        (Seq::empty(), Seq::empty())
    } else {
        let prev = classify(toks.drop_last());
        let t = trim_commas(toks.last());
        if t.len() == 0 {
            prev
        } else if is_numeric(t) {
            (prev.0.push(t), prev.1)
        } else {
            (prev.0, prev.1.push(t))
        }
    }
}

/// The numeric-id partition a command text gives rise to.
pub open spec fn numeric_ids_of(s: Seq<char>) -> Seq<Seq<char>> {
    classify(tokens(s)).0
}

/// The login-name partition a command text gives rise to.
pub open spec fn login_names_of(s: Seq<char>) -> Seq<Seq<char>> {
    classify(tokens(s)).1
}

/// The character sequences a vector of strings holds.
pub open spec fn string_views(v: Seq<String>) -> Seq<Seq<char>> {
    v.map_values(|s: String| s@)
}

impl BatchQuery {
    pub open spec fn ids(self) -> Seq<Seq<char>> {
        string_views(self.numeric_ids@)
    }

    pub open spec fn logins(self) -> Seq<Seq<char>> {
        string_views(self.login_names@)
    }

    /// The query a given command text must produce: both partitions as the
    /// classification of the text's tokens, and at least one identifier
    /// present.
    pub open spec fn wf_for(self, text: Seq<char>) -> bool {
        self.ids() == numeric_ids_of(text) && self.logins() == login_names_of(text) && (
        self.ids().len() > 0 || self.logins().len() > 0)
    }
}

/// A token consisting of commas alone.
pub open spec fn all_commas(t: Seq<char>) -> bool {
    forall|j: int| 0 <= j < t.len() ==> t[j] == ','
}

/// Trimming commas empties a token exactly when the token is all commas.
pub proof fn lemma_trim_empty_iff_all_commas(t: Seq<char>)
    ensures
        (trim_commas(t).len() == 0) <==> all_commas(t),
    decreases t.len(),
{
    if t.len() > 0 && t[0] == ',' {
        lemma_trim_empty_iff_all_commas(t.drop_first());
        if all_commas(t.drop_first()) {
            assert forall|j: int| 0 <= j < t.len() implies t[j] == ',' by {
                if j > 0 {
                    assert(t[j] == t.drop_first()[j - 1]);
                }
            }
        }
        if all_commas(t) {
            assert forall|j: int| 0 <= j < t.drop_first().len() implies t.drop_first()[j]
                == ',' by {
                assert(t.drop_first()[j] == t[j + 1]);
            }
        }
    } else if t.len() > 0 && t.last() == ',' {
        lemma_trim_empty_iff_all_commas(t.drop_last());
        if all_commas(t.drop_last()) {
            assert forall|j: int| 0 <= j < t.len() implies t[j] == ',' by {
                if j < t.len() - 1 {
                    assert(t[j] == t.drop_last()[j]);
                }
            }
        }
        if all_commas(t) {
            assert forall|j: int| 0 <= j < t.drop_last().len() implies t.drop_last()[j]
                == ',' by {
                assert(t.drop_last()[j] == t[j]);
            }
        }
    } else {
        if t.len() > 0 {
            assert(t[0] != ',');
            assert(!all_commas(t));
        }
    }
}

/// The partitions of a token list are inhabited together exactly when some
/// token survives comma-trimming.
pub proof fn lemma_classify_nonempty(toks: Seq<Seq<char>>)
    ensures
        (classify(toks).0.len() + classify(toks).1.len() > 0) <==> (exists|i: int|
            0 <= i < toks.len() && trim_commas(#[trigger] toks[i]).len() > 0),
    decreases toks.len(),
{
    if toks.len() > 0 {
        lemma_classify_nonempty(toks.drop_last());
        let prev = classify(toks.drop_last());
        let t = trim_commas(toks.last());
        if t.len() == 0 {
            if exists|i: int| 0 <= i < toks.len() && trim_commas(#[trigger] toks[i]).len() > 0 {
                let i = choose|i: int|
                    0 <= i < toks.len() && trim_commas(#[trigger] toks[i]).len() > 0;
                assert(toks.last() == toks[toks.len() - 1]);
                assert(i < toks.len() - 1);
                assert(toks.drop_last()[i] == toks[i]);
                assert(exists|j: int|
                    0 <= j < toks.drop_last().len() && trim_commas(
                        #[trigger] toks.drop_last()[j],
                    ).len() > 0);
            }
            if exists|i: int|
                0 <= i < toks.drop_last().len() && trim_commas(
                    #[trigger] toks.drop_last()[i],
                ).len() > 0 {
                let i = choose|i: int|
                    0 <= i < toks.drop_last().len() && trim_commas(
                        #[trigger] toks.drop_last()[i],
                    ).len() > 0;
                assert(toks[i] == toks.drop_last()[i]);
                assert(exists|j: int|
                    0 <= j < toks.len() && trim_commas(#[trigger] toks[j]).len() > 0);
            }
        } else {
            assert(toks.last() == toks[toks.len() - 1]);
            assert(exists|i: int| 0 <= i < toks.len() && trim_commas(#[trigger] toks[i]).len() > 0);
        }
    }
}

/// A command text with a token that is not commas alone always yields a
/// query: at least one identifier survives classification.
pub proof fn lemma_non_comma_token_yields_query(s: Seq<char>, i: int)
    requires
        0 <= i < tokens(s).len(),
        !all_commas(tokens(s)[i]),
    ensures
        numeric_ids_of(s).len() + login_names_of(s).len() > 0,
{
    lemma_trim_empty_iff_all_commas(tokens(s)[i]);
    assert(trim_commas(tokens(s)[i]).len() > 0);
    lemma_classify_nonempty(tokens(s));
}

/// Text made of whitespace and commas alone names no identifier: both
/// partitions come out empty, so no query can be built from it.
pub proof fn lemma_spaces_and_commas_give_no_identifiers(s: Seq<char>)
    requires
        forall|i: int| 0 <= i < s.len() ==> is_space(#[trigger] s[i]) || s[i] == ',',
    ensures
        numeric_ids_of(s).len() == 0,
        login_names_of(s).len() == 0,
{
    lemma_scan_tokens_all_commas(s);
    let toks = tokens(s);
    assert forall|i: int| 0 <= i < toks.len() implies all_commas(#[trigger] toks[i]) by {
        if scan(s).1.len() > 0 && i == toks.len() - 1 {
            assert(toks[i] == scan(s).1);
        } else {
            assert(toks[i] == scan(s).0[i]);
        }
    }
    assert forall|i: int| 0 <= i < toks.len() implies trim_commas(#[trigger] toks[i]).len()
        == 0 by {
        lemma_trim_empty_iff_all_commas(toks[i]);
    }
    lemma_classify_nonempty(toks);
}

/// Over text of whitespace and commas alone, every token the scan collects
/// is commas alone.
proof fn lemma_scan_tokens_all_commas(s: Seq<char>)
    requires
        forall|i: int| 0 <= i < s.len() ==> is_space(#[trigger] s[i]) || s[i] == ',',
    ensures
        forall|i: int| 0 <= i < scan(s).0.len() ==> all_commas(#[trigger] scan(s).0[i]),
        all_commas(scan(s).1),
    decreases s.len(),
{
    if s.len() > 0 {
        assert forall|i: int|
            0 <= i < s.drop_last().len() implies is_space(#[trigger] s.drop_last()[i])
            || s.drop_last()[i] == ',' by {
            assert(s.drop_last()[i] == s[i]);
        }
        lemma_scan_tokens_all_commas(s.drop_last());
        let prev = scan(s.drop_last());
        let c = s.last();
        if is_space(c) {
            if prev.1.len() > 0 {
                assert forall|i: int|
                    0 <= i < scan(s).0.len() implies all_commas(#[trigger] scan(s).0[i]) by {
                    if i < prev.0.len() {
                        assert(scan(s).0[i] == prev.0[i]);
                    } else {
                        assert(scan(s).0[i] == prev.1);
                    }
                }
            }
        } else {
            assert(c == ',');
            assert forall|j: int| 0 <= j < prev.1.push(c).len() implies prev.1.push(c)[j]
                == ',' by {
                if j < prev.1.len() {
                    assert(prev.1.push(c)[j] == prev.1[j]);
                }
            }
        }
    }
}

proof fn lemma_string_views_push(v: Seq<String>, s: String)
    ensures
        string_views(v.push(s)) == string_views(v).push(s@),
{
    assert(string_views(v.push(s)) =~= string_views(v).push(s@));
}

proof fn lemma_numeric_value_nonneg(t: Seq<char>)
    requires
        all_digits(t),
    ensures
        numeric_value(t) >= 0,
    decreases t.len(),
{
    if t.len() > 0 {
        assert(all_digits(t.drop_last())) by {
            assert(forall|i: int|
                0 <= i < t.drop_last().len() ==> t.drop_last()[i] == t[i] && #[trigger] is_digit(
                    t.drop_last()[i],
                ));
        }
        lemma_numeric_value_nonneg(t.drop_last());
    }
}

/// Appending digits to a digit string never decreases its value.
proof fn lemma_numeric_value_prefix(t: Seq<char>, i: int)
    requires
        0 <= i <= t.len(),
        all_digits(t),
    ensures
        numeric_value(t) >= numeric_value(t.take(i)),
    decreases t.len() - i,
{
    if i < t.len() {
        assert(t.take(i + 1).drop_last() =~= t.take(i));
        assert(t.take(i + 1).last() == t[i]);
        assert(all_digits(t.take(i))) by {
            assert(forall|j: int|
                0 <= j < t.take(i).len() ==> t.take(i)[j] == t[j] && #[trigger] is_digit(
                    t.take(i)[j],
                ));
        }
        lemma_numeric_value_nonneg(t.take(i));
        assert(numeric_value(t.take(i + 1)) >= numeric_value(t.take(i)));
        lemma_numeric_value_prefix(t, i + 1);
    } else {
        assert(t.take(i) =~= t);
    }
}

/// Whether a character is tokenizer whitespace.
fn space_char(c: char) -> (b: bool)
    ensures
        b == is_space(c),
{
    let u = c as u32;
    (9 <= u && u <= 13) || u == 32 || u == 0x85 || u == 0xa0 || u == 0x1680 || (0x2000 <= u
        && u <= 0x200a) || u == 0x2028 || u == 0x2029 || u == 0x202f || u == 0x205f || u == 0x3000
}

/// Strips leading and trailing commas from a token.
fn trim_token(t: &str) -> (r: String)
    ensures
        r@ == trim_commas(t@),
{
    let n = t.unicode_len();
    let mut start: usize = 0;
    proof {
        assert(t@.subrange(0, n as int) =~= t@);
    }
    while start < n && t.get_char(start) == ','
        invariant
            start <= n,
            n == t@.len(),
            trim_commas(t@) == trim_commas(t@.subrange(start as int, n as int)),
        decreases n - start,
    {
        proof {
            assert(t@.subrange(start as int, n as int).drop_first() =~= t@.subrange(
                start as int + 1,
                n as int,
            ));
        }
        start += 1;
    }
    let mut end: usize = n;
    while end > start && t.get_char(end - 1) == ','
        invariant
            start <= end <= n,
            n == t@.len(),
            start == n || t@[start as int] != ',',
            trim_commas(t@) == trim_commas(t@.subrange(start as int, end as int)),
        decreases end,
    {
        proof {
            assert(t@.subrange(start as int, end as int).drop_last() =~= t@.subrange(
                start as int,
                end as int - 1,
            ));
        }
        end -= 1;
    }
    let r = t.substring_char(start, end).to_owned();
    proof {
        assert(trim_commas(t@.subrange(start as int, end as int)) == t@.subrange(
            start as int,
            end as int,
        ));
    }
    r
}

/// Whether a token is a numeric identifier.
fn numeric_token(t: &str) -> (b: bool)
    ensures
        b == is_numeric(t@),
{
    let n = t.unicode_len();
    if n == 0 {
        return false;
    }
    let first: usize = if t.get_char(0) == '+' {
        1
    } else {
        0
    };
    let ghost body = t@.subrange(first as int, n as int);
    proof {
        if first == 1 {
            assert(t@.drop_first() =~= body);
        } else {
            assert(t@ =~= body);
        }
        assert(is_numeric(t@) == fitting_digits(body));
    }
    if first >= n {
        return false;
    }
    let mut i: usize = first;
    let mut acc: u64 = 0;
    proof {
        assert(body.take(0) =~= Seq::<char>::empty());
    }
    while i < n
        invariant
            first <= i <= n,
            n == t@.len(),
            body == t@.subrange(first as int, n as int),
            is_numeric(t@) == fitting_digits(body),
            all_digits(body.take(i as int - first as int)),
            acc == numeric_value(body.take(i as int - first as int)),
            acc <= u32::MAX,
        decreases n - i,
    {
        let c = t.get_char(i);
        let u = c as u32;
        proof {
            assert(body[i as int - first as int] == t@[i as int]);
            assert(body.take(i as int - first as int + 1).drop_last() =~= body.take(
                i as int - first as int,
            ));
            assert(body.take(i as int - first as int + 1).last() == body[i as int - first as int]);
        }
        if u < 48 || u > 57 {
            proof {
                assert(!is_digit(body[i as int - first as int]));
            }
            return false;
        }
        let d = (u - 48) as u64;
        let next = acc * 10 + d;
        if next > u32::MAX as u64 {
            proof {
                assert(numeric_value(body.take(i as int - first as int + 1)) == acc * 10 + d);
                if all_digits(body) {
                    lemma_numeric_value_prefix(body, i as int - first as int + 1);
                }
            }
            return false;
        }
        acc = next;
        i += 1;
    }
    proof {
        assert(body.take(n as int - first as int) =~= body);
    }
    true
}

/// Trims one completed token, classifies it, and appends it to the fitting
/// partition; a token that is empty after trimming is dropped.
fn classify_push(ids: &mut Vec<String>, logins: &mut Vec<String>, tok: &str)
    ensures
        ({
            let t = trim_commas(tok@);
            if t.len() == 0 {
                final(ids)@ == old(ids)@ && final(logins)@ == old(logins)@
            } else if is_numeric(t) {
                string_views(final(ids)@) == string_views(old(ids)@).push(t) && final(logins)@
                    == old(logins)@
            } else {
                final(ids)@ == old(ids)@ && string_views(final(logins)@) == string_views(
                    old(logins)@,
                ).push(t)
            }
        }),
{
    let trimmed = trim_token(tok);
    if trimmed.as_str().unicode_len() == 0 {
        return ;
    }
    let numeric = numeric_token(trimmed.as_str());
    let ghost tv = trimmed;
    if numeric {
        let ghost before = ids@;
        ids.push(trimmed);
        proof {
            lemma_string_views_push(before, tv);
        }
    } else {
        let ghost before = logins@;
        logins.push(trimmed);
        proof {
            lemma_string_views_push(before, tv);
        }
    }
}

/// Builds the batched query a command text asks for.
///
/// The text is split on runs of whitespace; each token, stripped of leading
/// and trailing commas, becomes a numeric id when it is a digit string that
/// fits an unsigned 32-bit integer and a login name otherwise; tokens empty
/// after trimming are dropped.  Both partitions keep insertion order and
/// duplicates.  When every token is dropped, no query exists and
/// construction fails.
pub fn build(text: &str) -> (r: Result<BatchQuery, QueryError>)
    ensures
        ({
            let nids = numeric_ids_of(text@);
            let logs = login_names_of(text@);
            match r {
                Ok(q) => q.wf_for(text@),
                Err(e) => nids.len() == 0 && logs.len() == 0 && e == QueryError::NoIdentifiers,
            }
        }),
{
    let n = text.unicode_len();
    let mut ids: Vec<String> = Vec::new();
    let mut logins: Vec<String> = Vec::new();
    let mut i: usize = 0;
    let mut start: usize = 0;
    proof {
        assert(text@.take(0) =~= Seq::<char>::empty());
        assert(text@.subrange(0, 0) =~= Seq::<char>::empty());
    }
    while i < n
        invariant
            start <= i <= n,
            n == text@.len(),
            scan(text@.take(i as int)).1 == text@.subrange(start as int, i as int),
            string_views(ids@) == classify(scan(text@.take(i as int)).0).0,
            string_views(logins@) == classify(scan(text@.take(i as int)).0).1,
        decreases n - i,
    {
        let c = text.get_char(i);
        proof {
            assert(text@.take(i as int + 1).drop_last() =~= text@.take(i as int));
            assert(text@.take(i as int + 1).last() == text@[i as int]);
        }
        if space_char(c) {
            if start < i {
                let tok = text.substring_char(start, i);
                proof {
                    let done = scan(text@.take(i as int)).0;
                    assert(done.push(tok@).drop_last() =~= done);
                    assert(done.push(tok@).last() == tok@);
                }
                classify_push(&mut ids, &mut logins, tok);
            }
            i += 1;
            start = i;
            proof {
                assert(text@.subrange(start as int, i as int) =~= Seq::<char>::empty());
            }
        } else {
            proof {
                assert(text@.subrange(start as int, i as int).push(text@[i as int]) =~= text@
                    .subrange(start as int, i as int + 1));
            }
            i += 1;
        }
    }
    proof {
        assert(text@.take(n as int) =~= text@);
    }
    if start < n {
        let tok = text.substring_char(start, n);
        proof {
            let done = scan(text@).0;
            assert(done.push(tok@).drop_last() =~= done);
            assert(done.push(tok@).last() == tok@);
        }
        classify_push(&mut ids, &mut logins, tok);
    }
    if ids.len() == 0 && logins.len() == 0 {
        Err(QueryError::NoIdentifiers)
    } else {
        Ok(BatchQuery { numeric_ids: ids, login_names: logins })
    }
}

} // verus!
