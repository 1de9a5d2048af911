//! Configuration defaults and the normalization of configured values.

use vstd::prelude::*;

use crate::text::{chars_to_string, find_first, lemma_first_at, lemma_first_none, sub_chars, to_chars};

verus! {

/// Default collection period, in seconds.
pub fn default_sample_interval_secs() -> (r: u64)
    ensures
        r == 5,
{
    5
}

/// Default retention of the metrics history, in days.
pub fn default_retention_days() -> (r: i64)
    ensures
        r == 7,
{
    7
}

/// Default SQLite file.
pub fn default_db_path() -> (r: String)
    ensures
        r@ == "data.db"@,
{
    String::from_str("data.db")
}

/// Default HTTP listen address.
pub fn default_bind_addr() -> (r: String)
    ensures
        r@ == "0.0.0.0:3000"@,
{
    String::from_str("0.0.0.0:3000")
}

/// Default mount point scanned for disk usage.
pub fn default_disk_path() -> (r: String)
    ensures
        r@ == "/"@,
{
    String::from_str("/")
}

/// Default SMTP port.
pub fn default_smtp_port() -> (r: u16)
    ensures
        r == 587,
{
    587
}

/// An optional setting set to the empty string (`RUSTMON_WEBHOOK_URL=`) means
/// "not configured".
pub open spec fn spec_normalize_optional(v: Option<Seq<char>>) -> Option<Seq<char>> {
    match v {
        Some(s) => if s.len() == 0 {
            None
        } else {
            Some(s)
        },
        None => None,
    }
}

/// Turns an optional setting that is set but empty into an absent one.
pub fn normalize_optional(v: Option<String>) -> (r: Option<String>)
    ensures
        match r {
            Some(s) => spec_normalize_optional(match v {
                Some(t) => Some(t@),
                None => None,
            }) == Some(s@),
            None => spec_normalize_optional(match v {
                Some(t) => Some(t@),
                None => None,
            }) is None,
        },
{
    match v {
        Some(s) => if s.as_str().unicode_len() == 0 {
            None
        } else {
            Some(s)
        },
        None => None,
    }
}

/// A Unicode white-space character (`char::is_whitespace`: the `White_Space`
/// property).
pub open spec fn is_whitespace(c: char) -> bool {
    ||| '\u{9}' <= c <= '\u{d}'
    ||| c == ' '
    ||| c == '\u{85}'
    ||| c == '\u{a0}'
    ||| c == '\u{1680}'
    ||| '\u{2000}' <= c <= '\u{200a}'
    ||| c == '\u{2028}'
    ||| c == '\u{2029}'
    ||| c == '\u{202f}'
    ||| c == '\u{205f}'
    ||| c == '\u{3000}'
}

fn whitespace(c: char) -> (r: bool)
    ensures
        r == is_whitespace(c),
{
    ('\u{9}' <= c && c <= '\u{d}') || c == ' ' || c == '\u{85}' || c == '\u{a0}' || c == '\u{1680}'
        || ('\u{2000}' <= c && c <= '\u{200a}') || c == '\u{2028}' || c == '\u{2029}' || c
        == '\u{202f}' || c == '\u{205f}' || c == '\u{3000}'
}

/// `s` without leading white space.
pub open spec fn trim_start(s: Seq<char>) -> Seq<char>
    decreases s.len(),
{
    if s.len() > 0 && is_whitespace(s[0]) {
        trim_start(s.drop_first())
    } else {
        s
    }
}

/// `s` without trailing white space.
pub open spec fn trim_end(s: Seq<char>) -> Seq<char>
    decreases s.len(),
{
    if s.len() > 0 && is_whitespace(s.last()) {
        trim_end(s.drop_last())
    } else {
        s
    }
}

/// `s` without leading and trailing white space (`str::trim`).
pub open spec fn trim(s: Seq<char>) -> Seq<char> {
    trim_end(trim_start(s))
}

/// The recipients of a comma-separated list: each piece between commas,
/// trimmed, in order, the empty ones left out.
pub open spec fn recipients(s: Seq<char>) -> Seq<Seq<char>>
    decreases s.len(),
{
    match s.index_of_first(',') {
        None => if trim(s).len() > 0 {
            seq![trim(s)]
        } else {
            Seq::empty()
        },
        Some(i) => {
            proof {
                s.index_of_first_ensures(',');
            }
            (if trim(s.subrange(0, i)).len() > 0 {
                seq![trim(s.subrange(0, i))]
            } else {
                Seq::empty()
            }) + recipients(s.subrange(i + 1, s.len() as int))
        },
    }
}

/// The characters of `v[lo..hi]` without leading and trailing white space.
fn trim_range(v: &Vec<char>, lo: usize, hi: usize) -> (r: Vec<char>)
    requires
        lo <= hi <= v@.len(),
    ensures
        r@ == trim(v@.subrange(lo as int, hi as int)),
{
    let ghost s = v@.subrange(lo as int, hi as int);
    let mut a = lo;
    while a < hi && whitespace(v[a])
        invariant
            lo <= a <= hi <= v@.len(),
            s == v@.subrange(lo as int, hi as int),
            trim_start(v@.subrange(a as int, hi as int)) == trim_start(s),
        decreases hi - a,
    {
        assert(v@.subrange(a as int, hi as int).drop_first() =~= v@.subrange(a + 1, hi as int));
        a = a + 1;
    }
    let mut b = hi;
    assert(trim_start(s) == v@.subrange(a as int, hi as int));
    while b > a && whitespace(v[b - 1])
        invariant
            lo <= a <= b <= hi <= v@.len(),
            s == v@.subrange(lo as int, hi as int),
            trim_start(s) == v@.subrange(a as int, hi as int),
            trim_end(v@.subrange(a as int, b as int)) == trim(s),
        decreases b - a,
    {
        assert(v@.subrange(a as int, b as int).drop_last() =~= v@.subrange(a as int, b - 1));
        b = b - 1;
    }
    sub_chars(v, a, b)
}

/// Parses the comma-separated recipient list into a clean list.
pub fn email_to_list(email_to: &str) -> (r: Vec<String>)
    ensures
        r@.map_values(|x: String| x@) == recipients(email_to@),
{
    let mut v = to_chars(email_to);
    let ghost whole = v@;
    let mut r: Vec<String> = Vec::new();
    loop
        invariant
            whole == email_to@,
            r@.map_values(|x: String| x@) + recipients(v@) == recipients(whole),
        decreases v@.len(),
    {
        let ghost before = r@.map_values(|x: String| x@);
        match find_first(&v, ',') {
            None => {
                let t = trim_range(&v, 0, v.len());
                assert(v@.subrange(0, v@.len() as int) =~= v@);
                if t.len() > 0 {
                    r.push(chars_to_string(&t));
                    assert(r@.map_values(|x: String| x@) =~= before.push(t@));
                }
                return r;
            },
            Some(i) => {
                let t = trim_range(&v, 0, i);
                if t.len() > 0 {
                    r.push(chars_to_string(&t));
                    assert(r@.map_values(|x: String| x@) =~= before.push(t@));
                }
                let rest = sub_chars(&v, i + 1, v.len());
                v = rest;
            },
        }
    }
}

proof fn lemma_trim_start_shape(s: Seq<char>)
    ensures
        trim_start(s).len() <= s.len(),
        trim_start(s).len() > 0 ==> !is_whitespace(trim_start(s)[0]),
        trim_start(s) == s.subrange(s.len() - trim_start(s).len(), s.len() as int),
        forall|k: int| 0 <= k < s.len() - trim_start(s).len() ==> is_whitespace(#[trigger] s[k]),
    decreases s.len(),
{
    if s.len() > 0 && is_whitespace(s[0]) {
        lemma_trim_start_shape(s.drop_first());
        let t = trim_start(s.drop_first());
        assert forall|k: int| 0 <= k < s.len() - t.len() implies is_whitespace(#[trigger] s[k]) by {
            if k > 0 {
                assert(s[k] == s.drop_first()[k - 1]);
            }
        }
        assert(s.drop_first().subrange(s.drop_first().len() - t.len(), s.drop_first().len() as int)
            =~= s.subrange(s.len() - t.len(), s.len() as int));
    } else {
        assert(s.subrange(0, s.len() as int) =~= s);
    }
}

proof fn lemma_trim_end_shape(s: Seq<char>)
    ensures
        trim_end(s).len() <= s.len(),
        trim_end(s).len() > 0 ==> !is_whitespace(trim_end(s).last()),
        trim_end(s) == s.subrange(0, trim_end(s).len() as int),
        forall|k: int| trim_end(s).len() <= k < s.len() ==> is_whitespace(#[trigger] s[k]),
    decreases s.len(),
{
    if s.len() > 0 && is_whitespace(s.last()) {
        lemma_trim_end_shape(s.drop_last());
        let t = trim_end(s.drop_last());
        assert forall|k: int| t.len() <= k < s.len() implies is_whitespace(#[trigger] s[k]) by {
            if k < s.len() - 1 {
                assert(s[k] == s.drop_last()[k]);
            }
        }
        assert(s.drop_last().subrange(0, t.len() as int) =~= s.subrange(0, t.len() as int));
    } else {
        assert(s.subrange(0, s.len() as int) =~= s);
    }
}

/// A trimmed text is empty, or begins and ends with a character other than
/// white space.
pub proof fn lemma_trim_has_no_outer_whitespace(s: Seq<char>)
    ensures
        trim(s).len() > 0 ==> !is_whitespace(trim(s)[0]) && !is_whitespace(trim(s).last()),
{
    let a = trim_start(s);
    lemma_trim_start_shape(s);
    lemma_trim_end_shape(a);
    let b = trim_end(a);
    if b.len() > 0 {
        assert(b[0] == a[0]);
    }
}

/// The recipient list is clean: no entry is empty, none begins or ends with
/// white space, and none holds a comma.
pub proof fn lemma_recipients_are_clean(s: Seq<char>)
    ensures
        forall|i: int|
            0 <= i < recipients(s).len() ==> {
                let r = #[trigger] recipients(s)[i];
                &&& r.len() > 0
                &&& !is_whitespace(r[0])
                &&& !is_whitespace(r.last())
                &&& !r.contains(',')
            },
    decreases s.len(),
{
    s.index_of_first_ensures(',');
    match s.index_of_first(',') {
        None => {
            lemma_trim_has_no_outer_whitespace(s);
            lemma_trim_start_shape(s);
            lemma_trim_end_shape(trim_start(s));
            let t = trim(s);
            let ts = trim_start(s);
            assert forall|k: int| 0 <= k < t.len() implies t[k] != ',' by {
                assert(t[k] == ts[k]);
                assert(ts[k] == s[s.len() - ts.len() + k]);
            }
        },
        Some(i) => {
            let head = s.subrange(0, i);
            let tail = s.subrange(i + 1, s.len() as int);
            lemma_recipients_are_clean(tail);
            lemma_trim_has_no_outer_whitespace(head);
            lemma_trim_start_shape(head);
            lemma_trim_end_shape(trim_start(head));
            let t = trim(head);
            let ts = trim_start(head);
            assert forall|k: int| 0 <= k < t.len() implies t[k] != ',' by {
                assert(t[k] == ts[k]);
                assert(ts[k] == head[head.len() - ts.len() + k]);
            }
            let first: Seq<Seq<char>> = if t.len() > 0 { seq![t] } else { Seq::empty() };
            assert(recipients(s) == first + recipients(tail));
            assert forall|j: int| 0 <= j < recipients(s).len() implies {
                let r = #[trigger] recipients(s)[j];
                &&& r.len() > 0
                &&& !is_whitespace(r[0])
                &&& !is_whitespace(r.last())
                &&& !r.contains(',')
            } by {
                if j < first.len() {
                    assert(recipients(s)[j] == t);
                } else {
                    assert(recipients(s)[j] == recipients(tail)[j - first.len()]);
                }
            }
        },
    }
}

/// The trim of a text is the part of it between a run of white space at the
/// front and a run of white space at the back, and that part, unless empty,
/// begins and ends with a character other than white space.
pub proof fn lemma_trim_is_inner_part(s: Seq<char>)
    ensures
        exists|i: int, j: int|
            {
                &&& 0 <= i <= j <= s.len()
                &&& trim(s) == #[trigger] s.subrange(i, j)
                &&& forall|k: int| 0 <= k < i ==> is_whitespace(#[trigger] s[k])
                &&& forall|k: int| j <= k < s.len() ==> is_whitespace(#[trigger] s[k])
                &&& i < j ==> !is_whitespace(s[i]) && !is_whitespace(s[j - 1])
            },
{
    let a = trim_start(s);
    lemma_trim_start_shape(s);
    lemma_trim_end_shape(a);
    lemma_trim_has_no_outer_whitespace(s);
    let b = trim_end(a);
    let i = s.len() - a.len();
    let j = i + b.len();
    assert(b =~= s.subrange(i, j));
    assert forall|k: int| j <= k < s.len() implies is_whitespace(#[trigger] s[k]) by {
        assert(s[k] == a[k - i]);
    }
    if i < j {
        assert(s[i] == b[0]);
        assert(s[j - 1] == b.last());
    }
}

/// A list without a comma names one recipient, the list trimmed, unless
/// nothing but white space is left.
pub proof fn lemma_single_recipient(s: Seq<char>)
    requires
        !s.contains(','),
    ensures
        trim(s).len() > 0 ==> recipients(s) == seq![trim(s)],
        trim(s).len() == 0 ==> recipients(s) == Seq::<Seq<char>>::empty(),
{
    assert forall|j: int| 0 <= j < s.len() implies s[j] != ',' by {
        if s[j] == ',' {
            assert(s.contains(','));
        }
    }
    lemma_first_none(s, ',');
}

/// A comma splits the list: the recipients of `a,b`, where `a` holds no
/// comma, are those of `a` followed by those of `b`. So every non-empty
/// trimmed piece between commas, the last one included, is a recipient, in
/// the order of the list.
pub proof fn lemma_comma_splits_recipients(a: Seq<char>, b: Seq<char>)
    requires
        !a.contains(','),
    ensures
        recipients(a + seq![','] + b) == recipients(a) + recipients(b),
{
    let s = a + seq![','] + b;
    let i = a.len() as int;
    assert forall|j: int| 0 <= j < i implies s[j] != ',' by {
        assert(s[j] == a[j]);
        if a[j] == ',' {
            assert(a.contains(','));
        }
    }
    assert(s[i] == ',');
    lemma_first_at(s, ',', i);
    assert(s.subrange(0, i) =~= a);
    assert(s.subrange(i + 1, s.len() as int) =~= b);
    lemma_single_recipient(a);
}

} // verus!
