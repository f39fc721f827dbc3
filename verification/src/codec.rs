//! Persistence codec: the entry list as a single string, and back.
//!
//! Per entry the string holds one completion flag character (`'0'` or
//! `'1'`), one editing flag character, the description with `'\'` and `';'`
//! each escaped by a preceding `'\'`, and a terminating `';'`. Decoding a
//! string that encoding produced yields the same list
//! ([`lemma_decode_encode`]).

use vstd::prelude::*;
use vstd::string::*;

use crate::entry::{views, Entry, EntryView};

verus! {

/// The character standing for one boolean flag.
pub open spec fn flag_char(b: bool) -> char {
    if b {
        '1'
    } else {
        '0'
    }
}

/// A character that can stand for a flag.
pub open spec fn is_flag(c: char) -> bool {
    c == '0' || c == '1'
}

/// The description text with `'\'` and `';'` each preceded by a `'\'`.
pub open spec fn escape(d: Seq<char>) -> Seq<char>
    decreases d.len(),
{
    if d.len() == 0 {
        Seq::empty()
    } else {
        let head = if d[0] == '\\' || d[0] == ';' {
            seq!['\\', d[0]]
        } else {
            seq![d[0]]
        };
        head + escape(d.drop_first())
    }
}

/// One entry as stored: two flag characters, the escaped description, `';'`.
pub open spec fn encode_entry(e: EntryView) -> Seq<char> {
    seq![flag_char(e.completed), flag_char(e.editing)] + escape(e.description) + seq![';']
}

/// The whole list as stored: each entry's encoding in order.
pub open spec fn encode_seq(s: Seq<EntryView>) -> Seq<char>
    decreases s.len(),
{
    if s.len() == 0 {
        Seq::empty()
    } else {
        encode_entry(s[0]) + encode_seq(s.drop_first())
    }
}

/// Unescapes the prefix of `s` up to its first unescaped `';'`; yields the
/// description read and the remainder after that `';'`.
pub open spec fn unescape_prefix(s: Seq<char>) -> Option<(Seq<char>, Seq<char>)>
    decreases s.len(),
{
    if s.len() == 0 {
        None
    } else if s[0] == ';' {
        Some((Seq::empty(), s.drop_first()))
    } else if s[0] == '\\' {
        if s.len() < 2 {
            None
        } else {
            match unescape_prefix(s.subrange(2, s.len() as int)) {
                Some((d, r)) => Some((seq![s[1]] + d, r)),
                None => None,
            }
        }
    } else {
        match unescape_prefix(s.drop_first()) {
            Some((d, r)) => Some((seq![s[0]] + d, r)),
            None => None,
        }
    }
}

/// Whatever `unescape_prefix` reads, it consumes at least the `';'`.
pub proof fn lemma_unescape_prefix_shrinks(s: Seq<char>)
    ensures
        unescape_prefix(s) matches Some(p) ==> p.1.len() < s.len(),
    decreases s.len(),
{
    if s.len() == 0 {
    } else if s[0] == ';' {
    } else if s[0] == '\\' {
        if s.len() >= 2 {
            lemma_unescape_prefix_shrinks(s.subrange(2, s.len() as int));
        }
    } else {
        lemma_unescape_prefix_shrinks(s.drop_first());
    }
}

/// The list a stored string stands for, or `None` where the string cannot
/// have come from `encode_seq`.
pub open spec fn decode_seq(s: Seq<char>) -> Option<Seq<EntryView>>
    decreases s.len(),
    via decode_seq_decreases
{
    if s.len() == 0 {
        Some(Seq::empty())
    } else if s.len() < 2 || !is_flag(s[0]) || !is_flag(s[1]) {
        None
    } else {
        match unescape_prefix(s.subrange(2, s.len() as int)) {
            Some((d, r)) => match decode_seq(r) {
                Some(es) => Some(
                    seq![
                        EntryView { description: d, completed: s[0] == '1', editing: s[1] == '1' },
                    ] + es,
                ),
                None => None,
            },
            None => None,
        }
    }
}

#[via_fn]
proof fn decode_seq_decreases(s: Seq<char>) {
    if s.len() >= 2 {
        lemma_unescape_prefix_shrinks(s.subrange(2, s.len() as int));
    }
}

/// Reading back an escaped description stops exactly at its terminator.
pub proof fn lemma_unescape_escape(d: Seq<char>, rest: Seq<char>)
    ensures
        unescape_prefix(escape(d) + seq![';'] + rest) == Some((d, rest)),
    decreases d.len(),
{
    let s = escape(d) + seq![';'] + rest;
    if d.len() == 0 {
        assert(s =~= seq![';'] + rest);
        assert(s[0] == ';');
        assert(s.drop_first() =~= rest);
    } else {
        let c = d[0];
        lemma_unescape_escape(d.drop_first(), rest);
        if c == '\\' || c == ';' {
            assert(s[0] == '\\');
            assert(s.len() >= 2 && s[1] == c);
            assert(s.subrange(2, s.len() as int) =~= escape(d.drop_first()) + seq![';'] + rest);
            assert(seq![s[1]] + d.drop_first() =~= d);
        } else {
            assert(s[0] == c && c != ';' && c != '\\');
            assert(s.drop_first() =~= escape(d.drop_first()) + seq![';'] + rest);
            assert(seq![s[0]] + d.drop_first() =~= d);
        }
    }
}

/// Round trip: decoding what `encode_seq` produced yields the same list.
pub proof fn lemma_decode_encode(es: Seq<EntryView>)
    ensures
        decode_seq(encode_seq(es)) == Some(es),
    decreases es.len(),
{
    let s = encode_seq(es);
    if es.len() == 0 {
        assert(s =~= Seq::<char>::empty());
    } else {
        let e = es[0];
        let tail = encode_seq(es.drop_first());
        assert(s[0] == flag_char(e.completed));
        assert(s[1] == flag_char(e.editing));
        assert(s.subrange(2, s.len() as int) =~= escape(e.description) + seq![';'] + tail);
        lemma_unescape_escape(e.description, tail);
        lemma_decode_encode(es.drop_first());
        assert((s[0] == '1') == e.completed);
        assert((s[1] == '1') == e.editing);
        assert(seq![
            EntryView { description: e.description, completed: e.completed, editing: e.editing },
        ] + es.drop_first() =~= es);
    }
}

/// Relies on String::push: appends exactly the one character.
#[verifier::external_body]
fn push_char(s: &mut String, c: char)
    ensures
        final(s)@ == old(s)@.push(c),
{
    s.push(c);
}

/// Appending two pieces escapes as escaping each piece does.
proof fn lemma_escape_app(a: Seq<char>, b: Seq<char>)
    ensures
        escape(a + b) == escape(a) + escape(b),
    decreases a.len(),
{
    if a.len() == 0 {
        assert(a + b =~= b);
        assert(escape(a) + escape(b) =~= escape(b));
    } else {
        assert((a + b)[0] == a[0]);
        assert((a + b).drop_first() =~= a.drop_first() + b);
        lemma_escape_app(a.drop_first(), b);
        let head = if a[0] == '\\' || a[0] == ';' {
            seq!['\\', a[0]]
        } else {
            seq![a[0]]
        };
        assert(head + (escape(a.drop_first()) + escape(b)) =~= (head + escape(a.drop_first()))
            + escape(b));
    }
}

fn append_escaped(out: &mut String, d: &str)
    ensures
        final(out)@ == old(out)@ + escape(d@),
{
    let n = d.unicode_len();
    let mut i: usize = 0;
    proof {
        assert(d@.subrange(0, 0) =~= Seq::<char>::empty());
        assert(out@ + escape(Seq::<char>::empty()) =~= out@);
    }
    while i < n
        invariant
            i <= n,
            n == d@.len(),
            out@ == old(out)@ + escape(d@.subrange(0, i as int)),
        decreases n - i,
    {
        let ghost pre = out@;
        let c = d.get_char(i);
        if c == '\\' || c == ';' {
            push_char(out, '\\');
        }
        push_char(out, c);
        proof {
            let prefix = d@.subrange(0, i as int);
            let one = seq![c];
            assert(d@.subrange(0, i as int + 1) =~= prefix + one);
            lemma_escape_app(prefix, one);
            assert(one.len() == 1 && one[0] == c);
            assert(one.drop_first() =~= Seq::<char>::empty());
            assert(escape(Seq::<char>::empty()) == Seq::<char>::empty());
            if c == '\\' || c == ';' {
                assert(escape(one) == seq!['\\', c] + Seq::<char>::empty());
                assert(seq!['\\', c] + Seq::<char>::empty() =~= seq!['\\', c]);
                assert(out@ =~= pre + seq!['\\', c]);
            } else {
                assert(escape(one) == seq![c] + Seq::<char>::empty());
                assert(seq![c] + Seq::<char>::empty() =~= seq![c]);
                assert(out@ =~= pre + seq![c]);
            }
            assert(out@ =~= old(out)@ + escape(d@.subrange(0, i as int + 1)));
        }
        i = i + 1;
    }
    proof {
        assert(d@.subrange(0, n as int) =~= d@);
    }
}

fn append_entry(out: &mut String, e: &Entry)
    ensures
        final(out)@ == old(out)@ + encode_entry(e@),
{
    push_char(out, if e.completed { '1' } else { '0' });
    push_char(out, if e.editing { '1' } else { '0' });
    append_escaped(out, e.description.as_str());
    push_char(out, ';');
    proof {
        assert(final(out)@ =~= old(out)@ + encode_entry(e@));
    }
}

/// The entry list as one string for the persistence slot.
pub fn encode(entries: &Vec<Entry>) -> (r: String)
    ensures
        r@ == encode_seq(views(entries@)),
{
    let n = entries.len();
    let mut out = String::new();
    let mut i: usize = 0;
    proof {
        assert(views(entries@).skip(0) =~= views(entries@));
    }
    while i < n
        invariant
            i <= n,
            n == entries@.len(),
            out@ + encode_seq(views(entries@).skip(i as int)) == encode_seq(views(entries@)),
        decreases n - i,
    {
        let ghost pre = out@;
        append_entry(&mut out, &entries[i]);
        proof {
            let vs = views(entries@);
            assert(vs.skip(i as int)[0] == entries@[i as int]@);
            assert(vs.skip(i as int).drop_first() =~= vs.skip(i as int + 1));
            assert((pre + encode_entry(entries@[i as int]@)) + encode_seq(vs.skip(i as int + 1))
                =~= pre + (encode_entry(entries@[i as int]@) + encode_seq(vs.skip(i as int + 1))));
        }
        i = i + 1;
    }
    proof {
        assert(views(entries@).skip(n as int) =~= Seq::<EntryView>::empty());
        assert(out@ + Seq::<char>::empty() =~= out@);
    }
    out
}

fn decode_desc(s: &str, i: usize) -> (r: Option<(String, usize)>)
    requires
        i <= s@.len(),
    ensures
        match r {
            Some(p) => {
                &&& unescape_prefix(s@.subrange(i as int, s@.len() as int)) == Some(
                    (p.0@, s@.subrange(p.1 as int, s@.len() as int)),
                )
                &&& i < p.1 <= s@.len()
            },
            None => unescape_prefix(s@.subrange(i as int, s@.len() as int)) is None,
        },
    decreases s@.len() - i,
{
    let n = s.unicode_len();
    let ghost suffix = s@.subrange(i as int, n as int);
    if i >= n {
        proof {
            assert(suffix =~= Seq::<char>::empty());
        }
        return None;
    }
    let c = s.get_char(i);
    proof {
        assert(suffix[0] == c);
    }
    if c == ';' {
        proof {
            assert(suffix.drop_first() =~= s@.subrange(i as int + 1, n as int));
        }
        return Some((String::new(), i + 1));
    }
    if c == '\\' {
        if i + 1 >= n {
            return None;
        }
        let c2 = s.get_char(i + 1);
        proof {
            assert(suffix[1] == c2);
            assert(suffix.subrange(2, suffix.len() as int) =~= s@.subrange(i as int + 2, n as int));
        }
        match decode_desc(s, i + 2) {
            None => None,
            Some((d, j)) => {
                let mut out = String::new();
                push_char(&mut out, c2);
                out.append(d.as_str());
                proof {
                    assert(out@ =~= seq![c2] + d@);
                }
                Some((out, j))
            },
        }
    } else {
        proof {
            assert(suffix.drop_first() =~= s@.subrange(i as int + 1, n as int));
        }
        match decode_desc(s, i + 1) {
            None => None,
            Some((d, j)) => {
                let mut out = String::new();
                push_char(&mut out, c);
                out.append(d.as_str());
                proof {
                    assert(out@ =~= seq![c] + d@);
                }
                Some((out, j))
            },
        }
    }
}

fn decode_from(s: &str, i: usize) -> (r: Option<Vec<Entry>>)
    requires
        i <= s@.len(),
    ensures
        match r {
            Some(v) => decode_seq(s@.subrange(i as int, s@.len() as int)) == Some(views(v@)),
            None => decode_seq(s@.subrange(i as int, s@.len() as int)) is None,
        },
    decreases s@.len() - i,
{
    let n = s.unicode_len();
    let ghost suffix = s@.subrange(i as int, n as int);
    if i >= n {
        proof {
            assert(suffix =~= Seq::<char>::empty());
            assert(views(Seq::<Entry>::empty()) =~= Seq::<EntryView>::empty());
        }
        return Some(Vec::new());
    }
    if i + 1 >= n {
        return None;
    }
    let c0 = s.get_char(i);
    let c1 = s.get_char(i + 1);
    proof {
        assert(suffix[0] == c0 && suffix[1] == c1);
    }
    if !((c0 == '0' || c0 == '1') && (c1 == '0' || c1 == '1')) {
        return None;
    }
    proof {
        assert(suffix.subrange(2, suffix.len() as int) =~= s@.subrange(i as int + 2, n as int));
    }
    match decode_desc(s, i + 2) {
        None => None,
        Some((d, j)) => match decode_from(s, j) {
            None => None,
            Some(rest) => {
                let ghost pre = rest@;
                let mut rest = rest;
                let e = Entry { description: d, completed: c0 == '1', editing: c1 == '1' };
                let ghost ev = e@;
                rest.insert(0, e);
                proof {
                    assert(views(rest@) =~= seq![ev] + views(pre));
                }
                Some(rest)
            },
        },
    }
}

/// The entry list a stored string holds, or `None` where the string is not a
/// well-formed encoding.
pub fn decode(s: &str) -> (r: Option<Vec<Entry>>)
    ensures
        match r {
            Some(v) => decode_seq(s@) == Some(views(v@)),
            None => decode_seq(s@) is None,
        },
{
    proof {
        assert(s@.subrange(0, s@.len() as int) =~= s@);
    }
    decode_from(s, 0)
}

} // verus!
