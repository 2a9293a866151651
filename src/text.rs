//! Text helpers: whitespace trimming and the label matching of scraped
//! Prometheus samples.
use vstd::prelude::*;

verus! {

/// What `str::trim` makes of a string.
pub uninterp spec fn trim_of(s: Seq<char>) -> Seq<char>;

/// Relies on str::trim: leading and trailing whitespace removed, which depends
/// on the characters alone.
#[verifier::external_body]
pub(crate) fn trim(s: &str) -> (r: &str)
    ensures
        r@ == trim_of(s@),
        s@.len() == 0 ==> r@.len() == 0,
{
    s.trim()
}

/// A string with nothing but whitespace.
pub open spec fn blank(s: Seq<char>) -> bool {
    trim_of(s).len() == 0
}

/// Whether a string holds nothing but whitespace.
pub fn is_blank(s: &str) -> (r: bool)
    ensures
        r == blank(s@),
{
    trim(s).is_empty()
}

/// Index of the first `c` in `s`, or the length of `s` if there is none.
pub open spec fn first_index_of(s: Seq<char>, c: char) -> int
    decreases s.len(),
{
    if s.len() == 0 {
        0
    } else if s[0] == c {
        0
    } else {
        1 + first_index_of(s.skip(1), c)
    }
}

/// `s` without its leading `c`s.
pub open spec fn strip_leading(s: Seq<char>, c: char) -> Seq<char>
    decreases s.len(),
{
    if s.len() > 0 && s[0] == c {
        strip_leading(s.skip(1), c)
    } else {
        s
    }
}

/// `s` without its trailing `c`s.
pub open spec fn strip_trailing(s: Seq<char>, c: char) -> Seq<char>
    decreases s.len(),
{
    if s.len() > 0 && s.last() == c {
        strip_trailing(s.drop_last(), c)
    } else {
        s
    }
}

/// A label value without the double quotes around it.
pub open spec fn unquoted(s: Seq<char>) -> Seq<char> {
    strip_trailing(strip_leading(s, '"'), '"')
}

/// What one `key=value` pair says: `None` if its key is not `id`, else
/// whether its unquoted value is `vid`.
pub open spec fn pair_verdict(pair: Seq<char>, vid: Seq<char>) -> Option<bool> {
    let eq = first_index_of(pair, '=');
    let key = trim_of(pair.take(eq));
    let value = if eq < pair.len() {
        trim_of(pair.skip(eq + 1))
    } else {
        Seq::empty()
    };
    if key == "id"@ {
        Some(unquoted(value) == vid)
    } else {
        None
    }
}

/// The comma-separated pairs of `labels` decide by the first one keyed `id`;
/// with none, they match.
pub open spec fn pairs_match(labels: Seq<char>, vid: Seq<char>) -> bool
    decreases labels.len(),
{
    let cut = first_index_of(labels, ',');
    match pair_verdict(labels.take(cut), vid) {
        Some(b) => b,
        None => if 0 <= cut < labels.len() {
            pairs_match(labels.skip(cut + 1), vid)
        } else {
            true
        },
    }
}

/// Whether a sample's labels belong to validator `vid`: an empty `vid`
/// matches everything.
pub open spec fn labels_match(labels: Seq<char>, vid: Seq<char>) -> bool {
    vid.len() == 0 || pairs_match(labels, vid)
}

/// Index of the first `c` in `s` at or after `from`, or the length of `s`.
fn find_char(s: &str, c: char, from: usize, n: usize) -> (r: usize)
    requires
        n == s@.len(),
        from <= n,
    ensures
        r == from + first_index_of(s@.skip(from as int), c),
        from <= r <= n,
{
    let mut i = from;
    while i < n
        invariant
            from <= i <= n,
            n == s@.len(),
            from + first_index_of(s@.skip(from as int), c) == i + first_index_of(
                s@.skip(i as int),
                c,
            ),
        decreases n - i,
    {
        if s.get_char(i) == c {
            return i;
        }
        assert(s@.skip(i as int).skip(1) =~= s@.skip(i + 1));
        i = i + 1;
    }
    i
}

/// Whether two strings hold the same characters.
fn same_chars(a: &str, b: &str) -> (r: bool)
    ensures
        r == (a@ == b@),
{
    let n = a.unicode_len();
    if n != b.unicode_len() {
        return false;
    }
    let mut i: usize = 0;
    while i < n
        invariant
            0 <= i <= n,
            n == a@.len(),
            n == b@.len(),
            forall|j: int| 0 <= j < i ==> a@[j] == b@[j],
        decreases n - i,
    {
        if a.get_char(i) != b.get_char(i) {
            return false;
        }
        i = i + 1;
    }
    assert(a@ =~= b@);
    true
}

/// `s` without the double quotes around it.
fn strip_quotes(s: &str) -> (r: &str)
    ensures
        r@ == unquoted(s@),
{
    let n = s.unicode_len();
    let mut lo: usize = 0;
    assert(s@.skip(0) =~= s@);
    while lo < n && s.get_char(lo) == '"'
        invariant
            0 <= lo <= n,
            n == s@.len(),
            strip_leading(s@, '"') == strip_leading(s@.skip(lo as int), '"'),
        decreases n - lo,
    {
        assert(s@.skip(lo as int).skip(1) =~= s@.skip(lo + 1));
        lo = lo + 1;
    }
    let mut hi: usize = n;
    let ghost w = s@.skip(lo as int);
    assert(strip_leading(w, '"') == w);
    while hi > lo && s.get_char(hi - 1) == '"'
        invariant
            lo <= hi <= n,
            n == s@.len(),
            w == s@.skip(lo as int),
            strip_trailing(w, '"') == strip_trailing(s@.subrange(lo as int, hi as int), '"'),
        decreases hi - lo,
    {
        assert(s@.subrange(lo as int, hi as int).drop_last() =~= s@.subrange(
            lo as int,
            hi - 1,
        ));
        hi = hi - 1;
    }
    assert(w =~= s@.subrange(lo as int, n as int));
    s.substring_char(lo, hi)
}

/// Whether `s` is exactly `id`.
fn is_id_key(s: &str) -> (r: bool)
    ensures
        r == (s@ == "id"@),
{
    proof {
        reveal_strlit("id");
    }
    if s.unicode_len() != 2 {
        return false;
    }
    let r = s.get_char(0) == 'i' && s.get_char(1) == 'd';
    if r {
        assert(s@ =~= "id"@);
    }
    r
}

/// What one `key=value` pair says of validator `vid`.
fn pair_verdict_of(pair: &str, vid: &str) -> (r: Option<bool>)
    ensures
        r == pair_verdict(pair@, vid@),
{
    let n = pair.unicode_len();
    let eq = find_char(pair, '=', 0, n);
    assert(pair@.skip(0) =~= pair@);
    assert(eq == first_index_of(pair@, '='));
    let key = trim(pair.substring_char(0, eq));
    assert(pair@.subrange(0, eq as int) =~= pair@.take(eq as int));
    if !is_id_key(key) {
        return None;
    }
    if eq < n {
        let value = trim(pair.substring_char(eq + 1, n));
        assert(pair@.subrange(eq + 1, n as int) =~= pair@.skip(eq + 1));
        let bare = strip_quotes(value);
        assert(value@ == trim_of(pair@.skip(eq + 1)));
        let r = same_chars(bare, vid);
        assert(r == (unquoted(trim_of(pair@.skip(eq + 1))) == vid@));
        Some(r)
    } else {
        proof {
            reveal_strlit("");
        }
        let bare = strip_quotes("");
        assert(unquoted(Seq::<char>::empty()) == Seq::<char>::empty());
        assert(bare@ == Seq::<char>::empty());
        Some(same_chars(bare, vid))
    }
}

/// Whether a scraped sample's labels belong to `validator_id`: the first
/// `id` label decides, after trimming and unquoting; with no `id` label, or
/// an empty `validator_id`, the sample matches.
pub fn labels_match_validator(labels: &str, validator_id: &str) -> (r: bool)
    ensures
        r == labels_match(labels@, validator_id@),
{
    if validator_id.is_empty() {
        return true;
    }
    let n = labels.unicode_len();
    let mut start: usize = 0;
    assert(labels@.skip(0) =~= labels@);
    loop
        invariant
            0 <= start <= n,
            n == labels@.len(),
            validator_id@.len() > 0,
            pairs_match(labels@, validator_id@) == pairs_match(
                labels@.skip(start as int),
                validator_id@,
            ),
        decreases n - start,
    {
        let cut = find_char(labels, ',', start, n);
        let ghost rest = labels@.skip(start as int);
        assert(labels@.subrange(start as int, cut as int) =~= rest.take(cut - start));
        let pair = labels.substring_char(start, cut);
        match pair_verdict_of(pair, validator_id) {
            Some(b) => {
                return b;
            },
            None => {},
        }
        if cut == n {
            return true;
        }
        assert(rest.skip(cut - start + 1) =~= labels@.skip(cut + 1));
        start = cut + 1;
    }
}

/// Index of the last `c` in `s`, or -1 if there is none.
pub open spec fn last_index_of(s: Seq<char>, c: char) -> int
    decreases s.len(),
{
    if s.len() == 0 {
        -1
    } else if s.last() == c {
        s.len() - 1
    } else {
        last_index_of(s.drop_last(), c)
    }
}

/// The JSON object embedded in a reply: from the first `{` through the last
/// `}`, when both are there and in that order.
pub open spec fn embedded_object_of(s: Seq<char>) -> Option<Seq<char>> {
    let start = first_index_of(s, '{');
    let end = last_index_of(s, '}');
    if start < s.len() && 0 <= end && start < end {
        Some(s.subrange(start, end + 1))
    } else {
        None
    }
}

/// A planner reply with the surrounding whitespace removed, or `None` when
/// nothing else is left.
pub fn trimmed_reply(raw: &str) -> (r: Option<&str>)
    ensures
        r is None <==> blank(raw@),
        r matches Some(t) ==> t@ == trim_of(raw@),
{
    let t = trim(raw);
    if t.is_empty() {
        None
    } else {
        Some(t)
    }
}

/// The JSON object embedded in a planner reply that is not JSON as a whole,
/// such as one wrapped in prose or a code fence.
pub fn embedded_object(s: &str) -> (r: Option<&str>)
    ensures
        match r {
            Some(o) => embedded_object_of(s@) == Some(o@),
            None => embedded_object_of(s@) is None,
        },
{
    let n = s.unicode_len();
    let start = find_char(s, '{', 0, n);
    assert(s@.skip(0) =~= s@);
    let mut end = n;
    while end > 0 && s.get_char(end - 1) != '}'
        invariant
            0 <= end <= n,
            n == s@.len(),
            last_index_of(s@, '}') == last_index_of(s@.take(end as int), '}'),
        decreases end,
    {
        assert(s@.take(end as int).drop_last() =~= s@.take(end - 1));
        end = end - 1;
    }
    proof {
        if end > 0 {
            assert(s@.take(end as int).last() == s@[end - 1]);
        } else {
            assert(s@.take(0) =~= Seq::<char>::empty());
        }
    }
    if start < n && end > 0 && start < end - 1 {
        Some(s.substring_char(start, end))
    } else {
        None
    }
}

/// What `str::split_whitespace` makes of a string.
pub uninterp spec fn words_of(s: Seq<char>) -> Seq<Seq<char>>;

/// Relies on str::split_whitespace: the whitespace-separated words of a
/// string, in order, which depend on the characters alone.
#[verifier::external_body]
fn first_two_words(s: &str) -> (r: Option<(&str, &str)>)
    ensures
        match r {
            Some((a, b)) => words_of(s@).len() >= 2 && a@ == words_of(s@)[0] && b@ == words_of(
                s@,
            )[1],
            None => words_of(s@).len() < 2,
        },
{
    let mut words = s.split_whitespace();
    match (words.next(), words.next()) {
        (Some(a), Some(b)) => Some((a, b)),
        _ => None,
    }
}

/// The metric name and value text of one line of a Prometheus text
/// exposition, if the line is a sample that belongs to validator `vid`:
/// comments, blank lines, lines with fewer than two words, unclosed label
/// sets and samples labelled for another validator give nothing.
pub open spec fn sample_of(line: Seq<char>, vid: Seq<char>) -> Option<(Seq<char>, Seq<char>)> {
    let t = trim_of(line);
    let words = words_of(t);
    if t.len() == 0 || t[0] == '#' || words.len() < 2 {
        None
    } else {
        let head = words[0];
        let open = first_index_of(head, '{');
        if open < head.len() {
            let rest = head.skip(open + 1);
            let close = first_index_of(rest, '}');
            if close < rest.len() && labels_match(rest.take(close), vid) {
                Some((head.take(open), words[1]))
            } else {
                None
            }
        } else {
            Some((head, words[1]))
        }
    }
}

/// The metric name and value text of one exposition line, if it is a sample
/// for `validator_id`.
pub fn sample_line<'a>(line: &'a str, validator_id: &str) -> (r: Option<(&'a str, &'a str)>)
    ensures
        match r {
            Some((name, value)) => sample_of(line@, validator_id@) == Some((name@, value@)),
            None => sample_of(line@, validator_id@) is None,
        },
{
    let t = trim(line);
    if t.is_empty() {
        return None;
    }
    if t.get_char(0) == '#' {
        return None;
    }
    let (head, value) = match first_two_words(t) {
        Some(w) => w,
        None => {
            return None;
        },
    };
    let n = head.unicode_len();
    let open = find_char(head, '{', 0, n);
    assert(head@.skip(0) =~= head@);
    if open < n {
        let rest = head.substring_char(open + 1, n);
        assert(rest@ =~= head@.skip(open + 1));
        let m = rest.unicode_len();
        let close = find_char(rest, '}', 0, m);
        assert(rest@.skip(0) =~= rest@);
        if close >= m {
            return None;
        }
        let labels = rest.substring_char(0, close);
        assert(labels@ =~= rest@.take(close as int));
        if !labels_match_validator(labels, validator_id) {
            return None;
        }
        let name = head.substring_char(0, open);
        assert(name@ =~= head@.take(open as int));
        Some((name, value))
    } else {
        Some((head, value))
    }
}

} // verus!
