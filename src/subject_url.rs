use vstd::prelude::*;

use crate::types::HuBoxNotification;

verus! {

/// The pieces of `s` between occurrences of `sep`, as `str::split` gives
/// them: n separators make n + 1 pieces, some possibly empty.
pub open spec fn split_on(s: Seq<char>, sep: char) -> Seq<Seq<char>>
    decreases s.len(),
{
    if s.len() == 0 {
        seq![Seq::<char>::empty()]
    } else if s.last() == sep {
        split_on(s.drop_last(), sep).push(Seq::<char>::empty())
    } else {
        let p = split_on(s.drop_last(), sep);
        p.update(p.len() - 1, p.last().push(s.last()))
    }
}

pub open spec fn is_digit(c: char) -> bool {
    '0' <= c && c <= '9'
}

/// The value of a string of decimal digits.
pub open spec fn digits_value(d: Seq<char>) -> int
    decreases d.len(),
{
    if d.len() == 0 {
        0
    } else {
        digits_value(d.drop_last()) * 10 + (d.last() as u32 - '0' as u32)
    }
}

/// `s` without one leading `+`.
pub open spec fn unsigned_digits(s: Seq<char>) -> Seq<char> {
    if s.len() > 0 && s[0] == '+' {
        s.drop_first()
    } else {
        s
    }
}

/// What parsing `s` as a `u32` gives: an optional `+`, then one or more
/// decimal digits whose value fits.
pub open spec fn parsed_u32(s: Seq<char>) -> Option<u32> {
    let d = unsigned_digits(s);
    if d.len() > 0 && (forall|i: int| 0 <= i < d.len() ==> is_digit(#[trigger] d[i]))
        && digits_value(d) <= u32::MAX {
        Some(digits_value(d) as u32)
    } else {
        None
    }
}

/// Why a subject URL gave no owner, repository and number.
#[derive(Debug, Clone, Copy, PartialEq, Eq)]
pub enum SubjectUrlError {
    MissingUrl,
    InvalidFormat,
    InvalidNumber,
}

/// The text that reports a subject URL error.
pub open spec fn url_error_text(e: SubjectUrlError) -> Seq<char> {
    match e {
        SubjectUrlError::MissingUrl => "No subject URL"@,
        SubjectUrlError::InvalidFormat => "Invalid subject URL format"@,
        SubjectUrlError::InvalidNumber => "Invalid number in subject URL"@,
    }
}

impl SubjectUrlError {
    pub fn message(&self) -> (r: String)
        ensures
            r@ == url_error_text(*self),
    {
        match self {
            SubjectUrlError::MissingUrl => "No subject URL".to_owned(),
            SubjectUrlError::InvalidFormat => "Invalid subject URL format".to_owned(),
            SubjectUrlError::InvalidNumber => "Invalid number in subject URL".to_owned(),
        }
    }
}

/// What a notification's subject URL (`.../repos/<owner>/<repo>/<kind>/<number>`)
/// resolves to.
pub open spec fn subject_target(url: Option<String>) -> Result<
    (Seq<char>, Seq<char>, u32),
    SubjectUrlError,
> {
    match url {
        None => Err(SubjectUrlError::MissingUrl),
        Some(u) => {
            let parts = split_on(u@, '/');
            if parts.len() < 8 {
                Err(SubjectUrlError::InvalidFormat)
            } else {
                match parsed_u32(parts[parts.len() - 1]) {
                    None => Err(SubjectUrlError::InvalidNumber),
                    Some(n) => Ok((parts[parts.len() - 4], parts[parts.len() - 3], n)),
                }
            }
        },
    }
}

/// Split `s` at every `sep`.
pub fn split_at_char(s: &str, sep: char) -> (r: Vec<String>)
    ensures
        r@.map_values(|p: String| p@) == split_on(s@, sep),
{
    let n = s.unicode_len();
    let mut parts: Vec<String> = Vec::new();
    let mut start: usize = 0;
    let mut i: usize = 0;
    assert(s@.take(0) =~= Seq::<char>::empty());
    assert(parts@.map_values(|p: String| p@).push(s@.subrange(0, 0)) =~= seq![
        Seq::<char>::empty(),
    ]);
    while i < n
        invariant
            n == s@.len(),
            start <= i <= n,
            parts@.map_values(|p: String| p@).push(s@.subrange(start as int, i as int))
                == split_on(s@.take(i as int), sep),
        decreases n - i,
    {
        let c = s.get_char(i);
        let ghost before = parts@.map_values(|p: String| p@);
        assert(s@.take(i + 1).drop_last() =~= s@.take(i as int));
        assert(s@.take(i + 1).last() == c);
        if c == sep {
            let piece = s.substring_char(start, i).to_owned();
            parts.push(piece);
            assert(parts@.map_values(|p: String| p@) =~= before.push(
                s@.subrange(start as int, i as int),
            ));
            start = i + 1;
            assert(s@.subrange(start as int, start as int) =~= Seq::<char>::empty());
        } else {
            assert(s@.subrange(start as int, i + 1) =~= s@.subrange(start as int, i as int).push(c));
            assert(before.push(s@.subrange(start as int, i + 1)) =~= before.push(
                s@.subrange(start as int, i as int),
            ).update(before.len() as int, s@.subrange(start as int, i as int).push(c)));
        }
        i = i + 1;
    }
    let last = s.substring_char(start, n).to_owned();
    let ghost before = parts@.map_values(|p: String| p@);
    parts.push(last);
    assert(s@.take(n as int) =~= s@);
    assert(parts@.map_values(|p: String| p@) =~= before.push(s@.subrange(start as int, n as int)));
    parts
}

proof fn lemma_digits_value_nonneg(d: Seq<char>)
    ensures
        digits_value(d) >= 0 || exists|i: int| 0 <= i < d.len() && !is_digit(#[trigger] d[i]),
    decreases d.len(),
{
    if d.len() > 0 {
        lemma_digits_value_nonneg(d.drop_last());
        if exists|i: int| 0 <= i < d.drop_last().len() && !is_digit(#[trigger] d.drop_last()[i]) {
            let i = choose|i: int| 0 <= i < d.drop_last().len() && !is_digit(#[trigger] d.drop_last()[i]);
            assert(d[i] == d.drop_last()[i]);
        }
    }
}

/// Parse a decimal `u32`, with an optional leading `+`.
pub fn parse_u32(s: &str) -> (r: Option<u32>)
    ensures
        r == parsed_u32(s@),
{
    let n = s.unicode_len();
    let mut i: usize = 0;
    if n > 0 && s.get_char(0) == '+' {
        i = 1;
    }
    let ghost first = i as int;
    let ghost d = unsigned_digits(s@);
    assert(d =~= s@.skip(first));
    if i == n {
        return None;
    }
    let mut value: u64 = 0;
    let mut too_big = false;
    while i < n
        invariant
            n == s@.len(),
            0 <= first <= i <= n,
            d == s@.skip(first),
            d == unsigned_digits(s@),
            d.len() == n - first,
            forall|j: int| first <= j < i ==> is_digit(#[trigger] s@[j]),
            !too_big ==> value == digits_value(d.take(i - first)) && value <= u32::MAX,
            too_big ==> digits_value(d.take(i - first)) > u32::MAX,
        decreases n - i,
    {
        let c = s.get_char(i);
        if c < '0' || c > '9' {
            assert(d[(i as int) - first] == s@[i as int]);
            assert(!is_digit(d[(i as int) - first]));
            return None;
        }
        let ghost t = d.take((i as int) + 1 - first);
        assert(t.drop_last() =~= d.take((i as int) - first));
        assert(t.last() == c);
        proof {
            lemma_digits_value_nonneg(t.drop_last());
            assert forall|j: int| 0 <= j < t.drop_last().len() implies is_digit(
                #[trigger] t.drop_last()[j],
            ) by {
                assert(t.drop_last()[j] == s@[j + first]);
            }
        }
        if !too_big {
            let next = value * 10 + ((c as u32) - ('0' as u32)) as u64;
            if next > 4294967295u64 {
                too_big = true;
            } else {
                value = next;
            }
        }
        i = i + 1;
    }
    assert(d.take(n - first) =~= d);
    assert forall|j: int| 0 <= j < d.len() implies is_digit(#[trigger] d[j]) by {
        assert(d[j] == s@[j + first]);
    }
    if too_big {
        None
    } else {
        Some(value as u32)
    }
}

/// Resolve a notification's subject URL into owner, repository and number.
pub fn parse_subject_url(notification: &HuBoxNotification) -> (r: Result<
    (String, String, u32),
    SubjectUrlError,
>)
    ensures
        match r {
            Ok((owner, repo, number)) => subject_target(notification.subject.url) == Ok::<
                (Seq<char>, Seq<char>, u32),
                SubjectUrlError,
            >((owner@, repo@, number)),
            Err(e) => subject_target(notification.subject.url) == Err::<
                (Seq<char>, Seq<char>, u32),
                SubjectUrlError,
            >(e),
        },
{
    let url = match &notification.subject.url {
        Some(u) => u,
        None => return Err(SubjectUrlError::MissingUrl),
    };
    let parts = split_at_char(url.as_str(), '/');
    let ghost pv = parts@.map_values(|p: String| p@);
    let len = parts.len();
    if len < 8 {
        return Err(SubjectUrlError::InvalidFormat);
    }
    assert(pv[len - 1] == parts@[len - 1]@);
    match parse_u32(parts[len - 1].as_str()) {
        None => Err(SubjectUrlError::InvalidNumber),
        Some(number) => {
            assert(pv[len - 4] == parts@[len - 4]@);
            assert(pv[len - 3] == parts@[len - 3]@);
            Ok((parts[len - 4].clone(), parts[len - 3].clone(), number))
        },
    }
}

} // verus!
