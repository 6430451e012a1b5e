//! Line-oriented text primitives for the store's serialized form.
//!
//! A serialized store is a sequence of newline-terminated lines.  Field
//! values may themselves contain newlines and backslashes, so they are
//! escaped before they become a line: a backslash doubles, a newline
//! becomes a backslash followed by `n`.  Escaping is proved invertible and
//! newline-free, and splitting into lines is proved to undo the joining of
//! escaped lines.

use vstd::prelude::*;
use vstd::string::*;

verus! {

/// The escaped form of one character.
pub open spec fn esc_char(c: char) -> Seq<char> {
    if c == '\\' {
        seq!['\\', '\\']
    } else if c == '\n' {
        seq!['\\', 'n']
    } else {
        seq![c]
    }
}

/// The escaped form of a text: each character escaped in order.
pub open spec fn esc(s: Seq<char>) -> Seq<char>
    decreases s.len(),
{
    if s.len() == 0 {
        Seq::empty()
    } else {
        esc_char(s[0]) + esc(s.drop_first())
    }
}

/// Unescaping; nothing when the text ends in a bare backslash or holds an
/// unknown escape sequence.
pub open spec fn unesc(s: Seq<char>) -> Option<Seq<char>>
    decreases s.len(),
{
    if s.len() == 0 {
        Some(Seq::empty())
    } else if s[0] == '\\' {
        if s.len() == 1 {
            None
        } else if s[1] == '\\' || s[1] == 'n' {
            let c = if s[1] == '\\' {
                '\\'
            } else {
                '\n'
            };
            match unesc(s.skip(2)) {
                Some(r) => Some(seq![c] + r),
                None => None,
            }
        } else {
            None
        }
    } else {
        match unesc(s.drop_first()) {
            Some(r) => Some(seq![s[0]] + r),
            None => None,
        }
    }
}

/// Escaping distributes over concatenation.
pub proof fn lemma_esc_concat(a: Seq<char>, b: Seq<char>)
    ensures
        esc(a + b) == esc(a) + esc(b),
    decreases a.len(),
{
    if a.len() == 0 {
        assert(a + b =~= b);
        assert(esc(a) + esc(b) =~= esc(b));
    } else {
        lemma_esc_concat(a.drop_first(), b);
        assert((a + b).drop_first() =~= a.drop_first() + b);
        assert(esc_char(a[0]) + (esc(a.drop_first()) + esc(b)) =~= (esc_char(a[0]) + esc(
            a.drop_first(),
        )) + esc(b));
    }
}

/// An escaped text never contains a newline.
pub proof fn lemma_esc_no_newline(s: Seq<char>)
    ensures
        forall|i: int| 0 <= i < esc(s).len() ==> esc(s)[i] != '\n',
    decreases s.len(),
{
    if s.len() > 0 {
        lemma_esc_no_newline(s.drop_first());
        let h = esc_char(s[0]);
        let rest = esc(s.drop_first());
        assert forall|i: int| 0 <= i < esc(s).len() implies esc(s)[i] != '\n' by {
            assert(esc(s) == h + rest);
            if i < h.len() {
                assert(esc(s)[i] == h[i]);
            } else {
                assert(esc(s)[i] == rest[i - h.len()]);
            }
        }
    }
}

/// Unescaping inverts escaping.
pub proof fn lemma_unesc_esc(s: Seq<char>)
    ensures
        unesc(esc(s)) == Some(s),
    decreases s.len(),
{
    if s.len() == 0 {
        assert(esc(s) =~= Seq::<char>::empty());
    } else {
        lemma_unesc_esc(s.drop_first());
        let e = esc(s);
        let c = s[0];
        if c == '\\' || c == '\n' {
            assert(e =~= esc_char(c) + esc(s.drop_first()));
            assert(e[0] == '\\');
            assert(e.len() >= 2);
            assert(e.skip(2) =~= esc(s.drop_first()));
            assert(seq![c] + s.drop_first() =~= s);
        } else {
            assert(e[0] == c);
            assert(e.drop_first() =~= esc(s.drop_first()));
            assert(seq![c] + s.drop_first() =~= s);
        }
    }
}

/// The lines of a text, each line given without its terminating newline;
/// nothing when the text does not end with a newline.
pub open spec fn split_lines(t: Seq<char>) -> Option<Seq<Seq<char>>>
    decreases t.len(),
{
    if t.len() == 0 {
        Some(Seq::empty())
    } else if t[0] == '\n' {
        match split_lines(t.drop_first()) {
            Some(r) => Some(seq![Seq::<char>::empty()] + r),
            None => None,
        }
    } else {
        match split_lines(t.drop_first()) {
            Some(r) => if r.len() > 0 {
                Some(seq![seq![t[0]] + r[0]] + r.skip(1))
            } else {
                None
            },
            None => None,
        }
    }
}

/// Putting one newline-free line in front of a text adds exactly that line
/// in front of the text's lines.
pub proof fn lemma_split_line(x: Seq<char>, t: Seq<char>)
    requires
        forall|i: int| 0 <= i < x.len() ==> x[i] != '\n',
    ensures
        split_lines(t) is None ==> split_lines(x + seq!['\n'] + t) is None,
        split_lines(t) matches Some(r) ==> split_lines(x + seq!['\n'] + t) == Some(seq![x] + r),
    decreases x.len(),
{
    let w = x + seq!['\n'] + t;
    if x.len() == 0 {
        assert(w =~= seq!['\n'] + t);
        assert(w[0] == '\n');
        assert(w.drop_first() =~= t);
        if split_lines(t) is Some {
            let r = split_lines(t)->Some_0;
            assert(split_lines(w) == Some(seq![Seq::<char>::empty()] + r));
            assert(x =~= Seq::<char>::empty());
            assert(seq![Seq::<char>::empty()] + r =~= seq![x] + r);
        }
    } else {
        lemma_split_line(x.drop_first(), t);
        assert(w[0] == x[0]);
        assert(w[0] != '\n');
        assert(w.drop_first() =~= x.drop_first() + seq!['\n'] + t);
        if split_lines(t) is Some {
            let r = split_lines(t)->Some_0;
            let r2 = seq![x.drop_first()] + r;
            assert(split_lines(w.drop_first()) == Some(r2));
            assert(r2.len() > 0);
            assert(split_lines(w) == Some(seq![seq![w[0]] + r2[0]] + r2.skip(1)));
            assert(seq![w[0]] + r2[0] =~= x);
            assert(r2.skip(1) =~= r);
            assert(seq![seq![w[0]] + r2[0]] + r2.skip(1) =~= seq![x] + r);
        }
    }
}

/// A nonempty text without any newline has no line decomposition.
pub proof fn lemma_split_unterminated(x: Seq<char>)
    requires
        x.len() > 0,
        forall|i: int| 0 <= i < x.len() ==> x[i] != '\n',
    ensures
        split_lines(x) is None,
    decreases x.len(),
{
    if x.len() > 1 {
        assert(forall|i: int|
            0 <= i < x.drop_first().len() ==> x.drop_first()[i] == x[i + 1]);
        lemma_split_unterminated(x.drop_first());
    } else {
        assert(x.drop_first().len() == 0);
        assert(split_lines(x.drop_first()) == Some(Seq::<Seq<char>>::empty()));
    }
}

/// Relies on String::push: appends the given character at the end of the
/// string.
#[verifier::external_body]
pub(crate) fn push_char(s: &mut String, c: char)
    ensures
        final(s)@ == old(s)@.push(c),
{
    s.push(c);
}

/// Appends the escaped form of `field` to `out`.
pub fn esc_append(out: &mut String, field: &str)
    ensures
        final(out)@ == old(out)@ + esc(field@),
{
    let n = field.unicode_len();
    let mut i: usize = 0;
    while i < n
        invariant
            n == field@.len(),
            i <= n,
            out@ == old(out)@ + esc(field@.take(i as int)),
        decreases n - i,
    {
        let c = field.get_char(i);
        if c == '\\' {
            push_char(out, '\\');
            push_char(out, '\\');
        } else if c == '\n' {
            push_char(out, '\\');
            push_char(out, 'n');
        } else {
            push_char(out, c);
        }
        proof {
            let pre = field@.take(i as int);
            let single = seq![field@[i as int]];
            lemma_esc_concat(pre, single);
            assert(pre + single =~= field@.take(i + 1));
            assert(single.drop_first() =~= Seq::<char>::empty());
            assert(esc(single) =~= esc_char(field@[i as int]) + esc(Seq::<char>::empty()));
            assert(esc(single) =~= esc_char(field@[i as int]));
            assert(out@ =~= old(out)@ + esc(field@.take(i + 1)));
        }
        i = i + 1;
    }
    proof {
        assert(field@.take(n as int) =~= field@);
    }
}

/// Undoes `esc` on one line; nothing when the line holds a malformed
/// escape.
pub fn unesc_line(line: &str) -> (r: Option<String>)
    ensures
        match r {
            Some(s) => unesc(line@) == Some(s@),
            None => unesc(line@) is None,
        },
{
    let n = line.unicode_len();
    let mut out = String::new();
    let mut i: usize = 0;
    proof {
        assert(line@.skip(0) =~= line@);
        if unesc(line@) is Some {
            assert(Seq::<char>::empty() + unesc(line@)->Some_0 =~= unesc(line@)->Some_0);
        }
    }
    while i < n
        invariant
            n == line@.len(),
            i <= n,
            unesc(line@.skip(i as int)) matches Some(rest) ==> unesc(line@) == Some(out@ + rest),
            unesc(line@.skip(i as int)) is None ==> unesc(line@) is None,
        decreases n - i,
    {
        let ghost rem = line@.skip(i as int);
        proof {
            assert(rem.len() == n - i);
            assert(rem[0] == line@[i as int]);
        }
        let c = line.get_char(i);
        if c == '\\' {
            if i + 1 == n {
                proof {
                    assert(unesc(rem) is None);
                }
                return None;
            }
            proof {
                assert(rem[1] == line@[i + 1]);
                assert(rem.skip(2) =~= line@.skip(i + 2));
            }
            let c2 = line.get_char(i + 1);
            if c2 == '\\' {
                push_char(&mut out, '\\');
                proof {
                    if unesc(line@.skip(i + 2)) is Some {
                        let r2 = unesc(line@.skip(i + 2))->Some_0;
                        assert(unesc(rem) == Some(seq!['\\'] + r2));
                        assert(out@ + r2 =~= out@.drop_last() + (seq!['\\'] + r2));
                    }
                }
                i = i + 2;
            } else if c2 == 'n' {
                push_char(&mut out, '\n');
                proof {
                    if unesc(line@.skip(i + 2)) is Some {
                        let r2 = unesc(line@.skip(i + 2))->Some_0;
                        assert(unesc(rem) == Some(seq!['\n'] + r2));
                        assert(out@ + r2 =~= out@.drop_last() + (seq!['\n'] + r2));
                    }
                }
                i = i + 2;
            } else {
                proof {
                    assert(unesc(rem) is None);
                }
                return None;
            }
        } else {
            push_char(&mut out, c);
            proof {
                assert(rem.drop_first() =~= line@.skip(i + 1));
                if unesc(line@.skip(i + 1)) is Some {
                    let r2 = unesc(line@.skip(i + 1))->Some_0;
                    assert(unesc(rem) == Some(seq![c] + r2));
                    assert(out@ + r2 =~= out@.drop_last() + (seq![c] + r2));
                }
            }
            i = i + 1;
        }
    }
    proof {
        assert(line@.skip(n as int) =~= Seq::<char>::empty());
        assert(unesc(line@.skip(n as int)) == Some(Seq::<char>::empty()));
        assert(out@ + Seq::<char>::empty() =~= out@);
    }
    Some(out)
}

/// The views of a sequence of strings.
pub open spec fn str_views(ls: Seq<String>) -> Seq<Seq<char>> {
    ls.map_values(|s: String| s@)
}

/// Splits a text into its newline-terminated lines; nothing when the text
/// does not end with a newline.
pub fn split_text(t: &str) -> (r: Option<Vec<String>>)
    ensures
        match r {
            Some(ls) => split_lines(t@) == Some(str_views(ls@)),
            None => split_lines(t@) is None,
        },
{
    let n = t.unicode_len();
    let mut lines: Vec<String> = Vec::new();
    let mut cur = String::new();
    let mut i: usize = 0;
    proof {
        assert(cur@ + t@.skip(0) =~= t@);
        assert(str_views(lines@) =~= Seq::<Seq<char>>::empty());
        if split_lines(t@) is Some {
            assert(str_views(lines@) + split_lines(t@)->Some_0 =~= split_lines(t@)->Some_0);
        }
    }
    while i < n
        invariant
            n == t@.len(),
            i <= n,
            forall|j: int| 0 <= j < cur@.len() ==> cur@[j] != '\n',
            split_lines(cur@ + t@.skip(i as int)) matches Some(r) ==> split_lines(t@) == Some(
                str_views(lines@) + r,
            ),
            split_lines(cur@ + t@.skip(i as int)) is None ==> split_lines(t@) is None,
        decreases n - i,
    {
        let ghost pre_cur = cur@;
        let ghost rem = t@.skip(i as int);
        let c = t.get_char(i);
        if c == '\n' {
            proof {
                assert(pre_cur + rem =~= pre_cur + seq!['\n'] + t@.skip(i + 1));
                lemma_split_line(pre_cur, t@.skip(i + 1));
            }
            lines.push(cur);
            cur = String::new();
            proof {
                assert(str_views(lines@) =~= str_views(lines@.drop_last()).push(pre_cur));
                assert(cur@ + t@.skip(i + 1) =~= t@.skip(i + 1));
                if split_lines(t@.skip(i + 1)) is Some {
                    let r2 = split_lines(t@.skip(i + 1))->Some_0;
                    assert(str_views(lines@.drop_last()) + (seq![pre_cur] + r2) =~= str_views(
                        lines@,
                    ) + r2);
                }
            }
            i = i + 1;
        } else {
            push_char(&mut cur, c);
            proof {
                assert(cur@ + t@.skip(i + 1) =~= pre_cur + rem);
            }
            i = i + 1;
        }
    }
    proof {
        assert(t@.skip(n as int) =~= Seq::<char>::empty());
        assert(cur@ + t@.skip(n as int) =~= cur@);
    }
    if cur.as_str().is_empty() {
        proof {
            assert(cur@ =~= Seq::<char>::empty());
            assert(split_lines(cur@) == Some(Seq::<Seq<char>>::empty()));
            assert(str_views(lines@) + Seq::<Seq<char>>::empty() =~= str_views(lines@));
        }
        Some(lines)
    } else {
        proof {
            lemma_split_unterminated(cur@);
        }
        None
    }
}

} // verus!
