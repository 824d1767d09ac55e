use vstd::prelude::*;
use vstd::string::*;

verus! {

/// One character of a JSON Pointer reference token: `~` is written `~0`, `/` is written `~1`.
pub open spec fn escape_char(c: char) -> Seq<char> {
    if c == '~' {
        seq!['~', '0']
    } else if c == '/' {
        seq!['~', '1']
    } else {
        seq![c]
    }
}

/// `k` as a JSON Pointer reference token.
pub open spec fn escape_token(k: Seq<char>) -> Seq<char>
    decreases k.len(),
{
    if k.len() == 0 {
        Seq::empty()
    } else {
        escape_char(k[0]) + escape_token(k.drop_first())
    }
}

/// The key that reference token `t` stands for: `None` where `t` holds a `/` (more than one
/// token) or a `~` not followed by `0` or `1`.
pub open spec fn unescape_token(t: Seq<char>) -> Option<Seq<char>>
    decreases t.len(),
{
    if t.len() == 0 {
        Some(Seq::empty())
    } else if t[0] == '/' {
        None
    } else if t[0] == '~' {
        if t.len() >= 2 && (t[1] == '0' || t[1] == '1') {
            match unescape_token(t.skip(2)) {
                Some(rest) => Some(seq![if t[1] == '0' { '~' } else { '/' }] + rest),
                None => None,
            }
        } else {
            None
        }
    } else {
        match unescape_token(t.drop_first()) {
            Some(rest) => Some(seq![t[0]] + rest),
            None => None,
        }
    }
}

pub proof fn lemma_escape_push(k: Seq<char>, c: char)
    ensures
        escape_token(k.push(c)) == escape_token(k) + escape_char(c),
    decreases k.len(),
{
    if k.len() == 0 {
        assert(k.push(c).drop_first() =~= Seq::<char>::empty());
        assert(k.push(c)[0] == c);
        assert(escape_token(Seq::<char>::empty()) == Seq::<char>::empty());
        assert(escape_token(k.push(c)) =~= escape_char(c));
        assert(escape_token(k) + escape_char(c) =~= escape_char(c));
    } else {
        assert(k.push(c).drop_first() =~= k.drop_first().push(c));
        lemma_escape_push(k.drop_first(), c);
        assert(escape_token(k.push(c)) =~= escape_token(k) + escape_char(c));
    }
}

/// Decoding an escaped key gives the key back.
pub proof fn lemma_unescape_escape(k: Seq<char>)
    ensures
        unescape_token(escape_token(k)) == Some(k),
    decreases k.len(),
{
    if k.len() == 0 {
        assert(escape_token(k) =~= Seq::<char>::empty());
    } else {
        let rest = k.drop_first();
        lemma_unescape_escape(rest);
        let e = escape_token(k);
        let c = k[0];
        if c == '~' || c == '/' {
            assert(e.skip(2) =~= escape_token(rest));
        } else {
            assert(e.drop_first() =~= escape_token(rest));
        }
        assert(seq![c] + rest =~= k);
    }
}

/// Escaping is one-to-one.
pub proof fn lemma_escape_injective(a: Seq<char>, b: Seq<char>)
    requires
        escape_token(a) == escape_token(b),
    ensures
        a == b,
{
    lemma_unescape_escape(a);
    lemma_unescape_escape(b);
}

/// Appends `k`, escaped as a JSON Pointer reference token, to `out`.
pub fn push_escaped(out: &mut String, k: &str)
    ensures
        final(out)@ == old(out)@ + escape_token(k@),
{
    let n = k.unicode_len();
    let ghost start = out@;
    let mut i: usize = 0;
    proof {
        assert(k@.take(0) =~= Seq::<char>::empty());
        assert(start + escape_token(Seq::<char>::empty()) =~= start);
    }
    while i < n
        invariant
            n == k@.len(),
            i <= n,
            out@ == start + escape_token(k@.take(i as int)),
        decreases n - i,
    {
        let c = k.get_char(i);
        proof {
            reveal_strlit("~0");
            reveal_strlit("~1");
            assert(k@.take(i + 1) =~= k@.take(i as int).push(c));
            lemma_escape_push(k@.take(i as int), c);
        }
        if c == '~' {
            out.append("~0");
            assert("~0"@ =~= escape_char(c));
        } else if c == '/' {
            out.append("~1");
            assert("~1"@ =~= escape_char(c));
        } else {
            let one = k.substring_char(i, i + 1);
            out.append(one);
            assert(one@ =~= escape_char(c));
        }
        assert(out@ =~= start + escape_token(k@.take(i + 1)));
        i = i + 1;
    }
    assert(k@.take(n as int) =~= k@);
}

} // verus!
