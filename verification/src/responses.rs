use vstd::prelude::*;
use crate::text::{dec_digits, push_char, push_decimal};

verus! {

/// The reply to a successful `create_session`.
pub open spec fn created_text(id: Seq<char>) -> Seq<char> {
    "Created GDB session: "@ + id
}

/// The reply that announces a created session.
pub fn session_created_text(id: &str) -> (t: String)
    ensures
        t@ == created_text(id@),
{
    let mut t = String::from_str("Created GDB session: ");
    t.append(id);
    t
}

/// A reply made of a label, ": " and a body.
pub fn labeled(label: &str, body: &str) -> (t: String)
    ensures
        t@ == label@ + ": "@ + body@,
{
    let mut t = String::from_str(label);
    t.append(": ");
    t.append(body);
    t
}

/// The reply to `select_frame`.
pub fn selected_frame_text(frame_number: u64) -> (t: String)
    ensures
        t@ == "Selected frame "@ + dec_digits(frame_number as nat),
{
    let mut t = String::from_str("Selected frame ");
    push_decimal(&mut t, frame_number);
    t
}

/// The reply to `is_session_active`.
pub fn session_active_text(active: bool) -> (t: String)
    ensures
        t@ == "Session active: "@ + (if active { "true"@ } else { "false"@ }),
{
    let mut t = String::from_str("Session active: ");
    if active {
        t.append("true");
    } else {
        t.append("false");
    }
    t
}

/// A ": " starts at position `j` of `s`.
pub open spec fn sep_at(s: Seq<char>, j: int) -> bool {
    0 <= j && j + 1 < s.len() && s[j] == ':' && s[j + 1] == ' '
}

/// The position of the first ": " in `s`, or -1.
pub open spec fn separator_index(s: Seq<char>) -> int
    decreases s.len(),
{
    if s.len() < 2 {
        -1
    } else if s[0] == ':' && s[1] == ' ' {
        0
    } else {
        let r = separator_index(s.drop_first());
        if r < 0 { -1 } else { r + 1 }
    }
}

/// The text up to the first '"' in `s`, or all of it.
pub open spec fn before_quote(s: Seq<char>) -> Seq<char>
    decreases s.len(),
{
    if s.len() == 0 {
        s
    } else if s[0] == '"' {
        Seq::empty()
    } else {
        seq![s[0]] + before_quote(s.drop_first())
    }
}

/// The session identifier a client reads from a reply: what follows the first ": ", up
/// to the first '"'; nothing when the reply holds no ": ".
pub open spec fn spec_session_id_from_reply(text: Seq<char>) -> Option<Seq<char>> {
    let i = separator_index(text);
    if i < 0 { None } else { Some(before_quote(text.skip(i + 2))) }
}

proof fn lemma_separator_index(s: Seq<char>, i: int)
    requires
        0 <= i,
        forall|j: int| 0 <= j < i ==> !sep_at(s, j),
    ensures
        i + 1 < s.len() && s[i] == ':' && s[i + 1] == ' ' ==> separator_index(s) == i,
        i + 1 >= s.len() ==> separator_index(s) == -1,
    decreases i,
{
    if i > 0 && s.len() >= 2 {
        assert(!sep_at(s, 0));
        {
            assert forall|j: int| 0 <= j < i - 1 implies !sep_at(s.drop_first(), j) by {
                assert(!sep_at(s, j + 1));
            }
            lemma_separator_index(s.drop_first(), i - 1);
        }
    }
}

proof fn lemma_before_quote(s: Seq<char>, i: int)
    requires
        0 <= i <= s.len(),
        forall|j: int| 0 <= j < i ==> s[j] != '"',
    ensures
        i < s.len() && s[i] == '"' ==> before_quote(s) == s.take(i),
        i == s.len() ==> before_quote(s) == s,
    decreases i,
{
    if i > 0 {
        assert forall|j: int| 0 <= j < i - 1 implies s.drop_first()[j] != '"' by {
            assert(s.drop_first()[j] == s[j + 1]);
        }
        lemma_before_quote(s.drop_first(), i - 1);
        assert(seq![s[0]] + s.drop_first().take(i - 1) =~= s.take(i));
        assert(seq![s[0]] + s.drop_first() =~= s);
    } else if s.len() > 0 {
        assert(s.take(0) =~= Seq::<char>::empty());
    }
}

/// Reads the session identifier from the reply to `create_session`.
pub fn session_id_from_reply(text: &str) -> (r: Option<String>)
    ensures
        match spec_session_id_from_reply(text@) {
            None => r is None,
            Some(id) => r matches Some(s) && s@ == id,
        },
{
    let n = text.unicode_len();
    let mut i: usize = 0;
    while n >= 2 && i < n - 1
        invariant
            n == text@.len(),
            i <= n,
            forall|j: int| 0 <= j < i ==> !sep_at(text@, j),
        ensures
            i <= n,
            i + 1 < n ==> text@[i as int] == ':' && text@[i + 1] == ' ',
            forall|j: int| 0 <= j < i ==> !sep_at(text@, j),
        decreases n - i,
    {
        if text.get_char(i) == ':' && text.get_char(i + 1) == ' ' {
            break;
        }
        i = i + 1;
    }
    proof {
        lemma_separator_index(text@, i as int);
    }
    if n < 2 || i >= n - 1 {
        return None;
    }
    let rest = text.substring_char(i + 2, n);
    assert(rest@ =~= text@.skip(i + 2));
    let m = rest.unicode_len();
    let mut out = String::new();
    let mut k: usize = 0;
    while k < m
        invariant
            m == rest@.len(),
            k <= m,
            out@ == rest@.take(k as int),
            forall|j: int| 0 <= j < k ==> rest@[j] != '"',
        ensures
            k <= m,
            out@ == rest@.take(k as int),
            k < m ==> rest@[k as int] == '"',
            forall|j: int| 0 <= j < k ==> rest@[j] != '"',
        decreases m - k,
    {
        let c = rest.get_char(k);
        if c == '"' {
            break;
        }
        push_char(&mut out, c);
        k = k + 1;
        assert(out@ =~= rest@.take(k as int));
    }
    proof {
        lemma_before_quote(rest@, k as int);
        if k == m {
            assert(rest@.take(k as int) =~= rest@);
        }
    }
    Some(out)
}

/// A client reads back exactly the identifier that the reply to `create_session`
/// announced, for any identifier without a '"' (as every UUID is).
pub proof fn law_session_id_round_trip(id: Seq<char>)
    requires
        forall|j: int| 0 <= j < id.len() ==> id[j] != '"',
    ensures
        spec_session_id_from_reply(created_text(id)) == Some(id),
{
    let t = created_text(id);
    reveal_strlit("Created GDB session: ");
    assert(t[19] == ':' && t[20] == ' ');
    assert forall|j: int| 0 <= j < 19 implies !sep_at(t, j) by {
        assert(t[j] == "Created GDB session: "@[j]);
    }
    lemma_separator_index(t, 19);
    assert(t.skip(21) =~= id);
    lemma_before_quote(id, id.len() as int);
}

} // verus!
