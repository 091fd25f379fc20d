//! Outgoing email: who sends it, and how a plain-text template becomes a
//! subject and a body. A template is a `Subject: ...` first line, then the
//! body; every `{{key}}` in either is replaced by its value.

use vstd::prelude::*;
use crate::text::{cat, chars_of, replace_all, replace_spec, string_from_chars};

verus! {

/// Where mail goes out from. With no API key, nothing is sent and the
/// message is only logged.
#[derive(Debug, Clone)]
pub struct EmailConfig {
    api_key: Option<String>,
    from_address: String,
}

impl EmailConfig {
    pub closed spec fn api_key_spec(&self) -> Option<String> {
        self.api_key
    }

    pub closed spec fn from_address_spec(&self) -> String {
        self.from_address
    }

    pub fn new(api_key: Option<String>, from_address: String) -> (c: EmailConfig)
        ensures
            c.api_key_spec() == api_key,
            c.from_address_spec() == from_address,
    {
        EmailConfig { api_key, from_address }
    }

    /// The provider's API key, if one is configured.
    pub fn api_key(&self) -> (r: &Option<String>)
        ensures
            *r == self.api_key_spec(),
    {
        &self.api_key
    }

    /// The sender address.
    pub fn from_address(&self) -> (r: &str)
        ensures
            r@ == self.from_address_spec()@,
    {
        self.from_address.as_str()
    }
}

/// The first line break of `t` is at `k`.
pub open spec fn first_newline(t: Seq<char>, k: int) -> bool {
    &&& 0 <= k < t.len()
    &&& t[k] == '\n'
    &&& forall|j: int| 0 <= j < k ==> t[j] != '\n'
}

/// The text before the first line break.
pub open spec fn first_line(t: Seq<char>) -> Seq<char> {
    t.take(choose|k: int| first_newline(t, k))
}

/// The text after the first line break.
pub open spec fn after_first_line(t: Seq<char>) -> Seq<char> {
    t.skip((choose|k: int| first_newline(t, k)) + 1)
}

/// `s` without its leading line breaks.
pub open spec fn skip_newlines(s: Seq<char>) -> Seq<char>
    decreases s.len(),
{
    if s.len() > 0 && s[0] == '\n' {
        skip_newlines(s.drop_first())
    } else {
        s
    }
}

/// A template has a line break, and its first line reads `Subject: ...`.
pub open spec fn renderable(t: Seq<char>) -> bool {
    &&& exists|k: int| first_newline(t, k)
    &&& first_line(t).len() >= 9
    &&& first_line(t).take(9) == "Subject: "@
}

/// `text` with each `{{key}}` replaced by its value, one key after the
/// other in the order given.
pub open spec fn substitute_spec(text: Seq<char>, values: Seq<(Seq<char>, Seq<char>)>) -> Seq<char>
    decreases values.len(),
{
    if values.len() == 0 {
        text
    } else {
        replace_spec(
            substitute_spec(text, values.drop_last()),
            "{{"@ + values.last().0 + "}}"@,
            values.last().1,
        )
    }
}

/// The placeholder values, as text.
pub open spec fn values_view(values: Seq<(&str, &str)>) -> Seq<(Seq<char>, Seq<char>)> {
    values.map_values(|kv: (&str, &str)| (kv.0@, kv.1@))
}

/// Where the first line break of `t` is, if it has one.
fn find_newline(t: &Vec<char>) -> (r: Option<usize>)
    ensures
        r matches Some(k) ==> first_newline(t@, k as int),
        r is None ==> forall|j: int| 0 <= j < t@.len() ==> t@[j] != '\n',
{
    let mut i: usize = 0;
    while i < t.len()
        invariant
            i <= t@.len(),
            forall|j: int| 0 <= j < i ==> t@[j] != '\n',
        decreases t@.len() - i,
    {
        if t[i] == '\n' {
            return Some(i);
        }
        i = i + 1;
    }
    None
}

/// The characters `t[from..to]`.
fn slice_chars(t: &Vec<char>, from: usize, to: usize) -> (r: Vec<char>)
    requires
        from <= to <= t@.len(),
    ensures
        r@ == t@.subrange(from as int, to as int),
{
    let mut r: Vec<char> = Vec::new();
    let mut i: usize = from;
    while i < to
        invariant
            from <= i <= to <= t@.len(),
            r@ == t@.subrange(from as int, i as int),
        decreases to - i,
    {
        r.push(t[i]);
        assert(r@ =~= t@.subrange(from as int, i + 1));
        i = i + 1;
    }
    r
}

/// Whether `template` has a line break and a first line reading
/// `Subject: ...`.
pub fn is_renderable(template: &str) -> (r: bool)
    ensures
        r == renderable(template@),
{
    let t = chars_of(template);
    let k = match find_newline(&t) {
        Some(k) => k,
        None => {
            return false;
        },
    };
    proof {
        let c = choose|x: int| first_newline(t@, x);
        if c < k {
            assert(t@[c] != '\n');
        } else if c > k {
            assert(t@[k as int] != '\n');
        }
        assert(c == k);
        assert(first_line(template@) == t@.take(k as int));
    }
    let prefix: [char; 9] = ['S', 'u', 'b', 'j', 'e', 'c', 't', ':', ' '];
    let ghost want = "Subject: "@;
    proof {
        reveal_strlit("Subject: ");
    }
    if k < 9 {
        return false;
    }
    let mut i: usize = 0;
    while i < 9
        invariant
            i <= 9 <= k < t@.len(),
            t@ == template@,
            first_newline(t@, k as int),
            first_line(template@) == t@.take(k as int),
            want == "Subject: "@,
            want.len() == 9,
            prefix@ == seq!['S', 'u', 'b', 'j', 'e', 'c', 't', ':', ' '],
            want == seq!['S', 'u', 'b', 'j', 'e', 'c', 't', ':', ' '],
            forall|j: int| 0 <= j < i ==> t@[j] == want[j],
        decreases 9 - i,
    {
        if t[i] != prefix[i] {
            assert(t@.take(k as int).take(9)[i as int] != want[i as int]);
            return false;
        }
        i = i + 1;
    }
    assert(t@.take(k as int).take(9) =~= want);
    true
}

/// The subject and body of `template` with every `{{key}}` of `values`
/// filled in, key by key in the order given. The body starts after the
/// line breaks that follow the subject line.
pub fn render(template: &str, values: &[(&str, &str)]) -> (r: (String, String))
    requires
        renderable(template@),
    ensures
        r.0@ == substitute_spec(first_line(template@).skip(9), values_view(values@)),
        r.1@ == substitute_spec(skip_newlines(after_first_line(template@)), values_view(values@)),
{
    let t = chars_of(template);
    let k = match find_newline(&t) {
        Some(k) => k,
        None => {
            proof {
                let c = choose|x: int| first_newline(t@, x);
                assert(t@[c] == '\n');
                assert(false);
            }
            0
        },
    };
    proof {
        let c = choose|x: int| first_newline(t@, x);
        if c < k {
            assert(t@[c] != '\n');
        } else if c > k {
            assert(t@[k as int] != '\n');
        }
        assert(c == k);
    }
    let n = t.len();
    assert(k < n);
    let subject_chars = slice_chars(&t, 9, k);
    assert(subject_chars@ =~= first_line(template@).skip(9));
    let mut start: usize = k + 1;
    assert(t@.subrange(start as int, t@.len() as int) =~= after_first_line(template@));
    while start < t.len() && t[start] == '\n'
        invariant
            k < start <= t@.len(),
            skip_newlines(t@.subrange(start as int, t@.len() as int)) == skip_newlines(after_first_line(template@)),
        decreases t@.len() - start,
    {
        assert(t@.subrange(start as int, t@.len() as int).drop_first() =~= t@.subrange(start + 1, t@.len() as int));
        start = start + 1;
    }
    let body_chars = slice_chars(&t, start, t.len());
    let subject = substitute(string_from_chars(&subject_chars), values);
    let body = substitute(string_from_chars(&body_chars), values);
    (subject, body)
}

/// `text` with each `{{key}}` of `values` replaced by its value, in order.
fn substitute(text: String, values: &[(&str, &str)]) -> (r: String)
    ensures
        r@ == substitute_spec(text@, values_view(values@)),
{
    let mut acc = text;
    let mut i: usize = 0;
    while i < values.len()
        invariant
            i <= values@.len(),
            acc@ == substitute_spec(text@, values_view(values@).take(i as int)),
        decreases values@.len() - i,
    {
        let (key, value) = values[i];
        let pattern = cat(&cat("{{", key), "}}");
        proof {
            reveal_strlit("{{");
            reveal_strlit("}}");
            assert(values_view(values@).take(i + 1).drop_last() =~= values_view(values@).take(i as int));
        }
        acc = replace_all(acc.as_str(), pattern.as_str(), value);
        i = i + 1;
    }
    assert(values_view(values@).take(values@.len() as int) =~= values_view(values@));
    acc
}

} // verus!
