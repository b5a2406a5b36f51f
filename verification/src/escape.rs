use vstd::prelude::*;
use crate::strutil::{to_chars, string_from_chars};

verus! {

pub open spec fn entity_lt() -> Seq<char> {
    seq!['&', 'l', 't', ';']
}

pub open spec fn entity_gt() -> Seq<char> {
    seq!['&', 'g', 't', ';']
}

pub open spec fn entity_quot() -> Seq<char> {
    seq!['&', 'q', 'u', 'o', 't', ';']
}

pub open spec fn entity_amp() -> Seq<char> {
    seq!['&', 'a', 'm', 'p', ';']
}

/// What one character of text becomes in markup: the four reserved
/// characters turn into their named entities, everything else stays itself.
pub open spec fn escape_char(c: char) -> Seq<char> {
    if c == '<' {
        entity_lt()
    } else if c == '>' {
        entity_gt()
    } else if c == '"' {
        entity_quot()
    } else if c == '&' {
        entity_amp()
    } else {
        seq![c]
    }
}

pub open spec fn escape_seq(s: Seq<char>) -> Seq<char>
    decreases s.len(),
{
    if s.len() == 0 {
        Seq::empty()
    } else {
        escape_char(s[0]) + escape_seq(s.drop_first())
    }
}

pub proof fn lemma_escape_snoc(s: Seq<char>)
    requires
        s.len() > 0,
    ensures
        escape_seq(s) == escape_seq(s.drop_last()) + escape_char(s.last()),
    decreases s.len(),
{
    if s.len() == 1 {
        assert(s.drop_first().len() == 0);
        assert(s.drop_last().len() == 0);
        assert(escape_seq(s) == escape_char(s[0]) + escape_seq(s.drop_first()));
        assert(escape_char(s[0]) + Seq::<char>::empty() == escape_char(s[0]));
        assert(Seq::<char>::empty() + escape_char(s[0]) == escape_char(s[0]));
    } else {
        lemma_escape_snoc(s.drop_first());
        assert(s.drop_first().drop_last() == s.drop_last().drop_first());
        assert(s.drop_first().last() == s.last());
        assert(s.drop_last().len() > 0);
        assert(s.drop_last()[0] == s[0]);
        assert(escape_seq(s.drop_last()) == escape_char(s[0]) + escape_seq(
            s.drop_last().drop_first(),
        ));
        assert(escape_char(s[0]) + (escape_seq(s.drop_first().drop_last()) + escape_char(s.last()))
            == (escape_char(s[0]) + escape_seq(s.drop_first().drop_last())) + escape_char(
            s.last(),
        ));
    }
}

/// Replaces `<`, `>`, `"` and `&` with their named entities; no other
/// character is touched.
pub fn escape_html_str(input: String) -> (r: String)
    ensures
        r@ == escape_seq(input@),
{
    let chars = to_chars(input.as_str());
    let mut out: Vec<char> = Vec::new();
    let mut i: usize = 0;
    while i < chars.len()
        invariant
            i <= chars.len(),
            chars@ == input@,
            out@ == escape_seq(input@.subrange(0, i as int)),
        decreases chars.len() - i,
    {
        let c = chars[i];
        if c == '<' {
            out.push('&');
            out.push('l');
            out.push('t');
            out.push(';');
        } else if c == '>' {
            out.push('&');
            out.push('g');
            out.push('t');
            out.push(';');
        } else if c == '"' {
            out.push('&');
            out.push('q');
            out.push('u');
            out.push('o');
            out.push('t');
            out.push(';');
        } else if c == '&' {
            out.push('&');
            out.push('a');
            out.push('m');
            out.push('p');
            out.push(';');
        } else {
            out.push(c);
        }
        i += 1;
        proof {
            let pre = input@.subrange(0, i as int);
            assert(pre.drop_last() == input@.subrange(0, i - 1));
            assert(pre.last() == input@[i - 1]);
            lemma_escape_snoc(pre);
            assert(out@ =~= escape_seq(pre));
        }
    }
    proof {
        assert(input@.subrange(0, input@.len() as int) == input@);
    }
    string_from_chars(&out)
}

pub open spec fn has_prefix(s: Seq<char>, p: Seq<char>) -> bool {
    s.len() >= p.len() && s.subrange(0, p.len() as int) == p
}

/// Reads escaped markup back into text: a leading named entity becomes its
/// character, any other leading character is kept as it is.
pub open spec fn unescape_seq(s: Seq<char>) -> Seq<char>
    decreases s.len(),
{
    if s.len() == 0 {
        Seq::empty()
    } else if has_prefix(s, entity_lt()) {
        seq!['<'] + unescape_seq(s.skip(4))
    } else if has_prefix(s, entity_gt()) {
        seq!['>'] + unescape_seq(s.skip(4))
    } else if has_prefix(s, entity_quot()) {
        seq!['"'] + unescape_seq(s.skip(6))
    } else if has_prefix(s, entity_amp()) {
        seq!['&'] + unescape_seq(s.skip(5))
    } else {
        seq![s[0]] + unescape_seq(s.drop_first())
    }
}

/// Text without any of the four reserved characters is left exactly as it
/// is by escaping.
pub proof fn lemma_escape_plain_text(t: Seq<char>)
    requires
        forall|i: int|
            0 <= i < t.len() ==> !(t[i] == '<' || t[i] == '>' || t[i] == '"' || t[i] == '&'),
    ensures
        escape_seq(t) == t,
    decreases t.len(),
{
    if t.len() > 0 {
        lemma_escape_plain_text(t.drop_first());
        assert(escape_char(t[0]) == seq![t[0]]);
        assert(escape_seq(t) =~= t);
    }
}

/// Escaping touches only the four reserved characters, and un-escaping the
/// escaped text restores the original text exactly.
pub proof fn lemma_escape_round_trip(t: Seq<char>)
    ensures
        unescape_seq(escape_seq(t)) == t,
    decreases t.len(),
{
    if t.len() == 0 {
    } else {
        let c = t[0];
        let rest = escape_seq(t.drop_first());
        lemma_escape_round_trip(t.drop_first());
        let s = escape_seq(t);
        assert(s == escape_char(c) + rest);
        if c == '<' {
            assert(s.subrange(0, 4) =~= entity_lt());
            assert(has_prefix(s, entity_lt()));
            assert(s.skip(4) =~= rest);
            assert(unescape_seq(s) == seq!['<'] + unescape_seq(rest));
            assert(seq!['<'] + t.drop_first() =~= t);
        } else if c == '>' {
            assert(!has_prefix(s, entity_lt()));
            assert(s.subrange(0, 4) =~= entity_gt());
            assert(has_prefix(s, entity_gt()));
            assert(s.skip(4) =~= rest);
            assert(seq!['>'] + t.drop_first() =~= t);
        } else if c == '"' {
            assert(!has_prefix(s, entity_lt()));
            assert(!has_prefix(s, entity_gt()));
            assert(s.subrange(0, 6) =~= entity_quot());
            assert(has_prefix(s, entity_quot()));
            assert(s.skip(6) =~= rest);
            assert(seq!['"'] + t.drop_first() =~= t);
        } else if c == '&' {
            assert(!has_prefix(s, entity_lt()));
            assert(!has_prefix(s, entity_gt()));
            assert(!has_prefix(s, entity_quot()));
            assert(s.subrange(0, 5) =~= entity_amp());
            assert(has_prefix(s, entity_amp()));
            assert(s.skip(5) =~= rest);
            assert(seq!['&'] + t.drop_first() =~= t);
        } else {
            assert(s[0] == c);
            assert(!has_prefix(s, entity_lt()));
            assert(!has_prefix(s, entity_gt()));
            assert(!has_prefix(s, entity_quot()));
            assert(!has_prefix(s, entity_amp()));
            assert(s.drop_first() =~= rest);
            assert(unescape_seq(s) == seq![c] + unescape_seq(rest));
            assert(seq![c] + t.drop_first() =~= t);
        }
    }
}

} // verus!
