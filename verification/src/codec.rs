//! The serialized form of the material store.
//!
//! A store becomes text as six newline-terminated lines per record, one
//! escaped field per line, name first.  Decoding is total: text that does
//! not parse, or whose records collide on a name, means an empty store.
//! Decoding is proved to invert encoding.

use vstd::prelude::*;
use vstd::string::*;

use crate::medicine::{med_views, wf_names, Medicine, MedicineView};
use crate::text::{
    esc, esc_append, lemma_esc_no_newline, lemma_split_line, lemma_unesc_esc, push_char,
    split_lines, split_text, str_views, unesc, unesc_line,
};

verus! {

/// The serialized form of one record: its six fields, each escaped and
/// newline-terminated, name first.
pub open spec fn encode_record(m: MedicineView) -> Seq<char> {
    esc(m.name) + seq!['\n'] + esc(m.alias) + seq!['\n'] + esc(m.summary) + seq!['\n'] + esc(
        m.attribute,
    ) + seq!['\n'] + esc(m.taboo) + seq!['\n'] + esc(m.keyword) + seq!['\n']
}

/// The serialized form of a sequence of records, in order.
pub open spec fn encode_records(ms: Seq<MedicineView>) -> Seq<char>
    decreases ms.len(),
{
    if ms.len() == 0 {
        Seq::empty()
    } else {
        encode_record(ms[0]) + encode_records(ms.drop_first())
    }
}

/// The records read off a sequence of lines, six lines a record; nothing
/// when a line holds a malformed escape or the line count is off.
pub open spec fn parse_lines(ls: Seq<Seq<char>>) -> Option<Seq<MedicineView>>
    decreases ls.len(),
{
    if ls.len() == 0 {
        Some(Seq::empty())
    } else if ls.len() < 6 {
        None
    } else if unesc(ls[0]) is Some && unesc(ls[1]) is Some && unesc(ls[2]) is Some && unesc(
        ls[3],
    ) is Some && unesc(ls[4]) is Some && unesc(ls[5]) is Some {
        let m = MedicineView {
            name: unesc(ls[0])->Some_0,
            alias: unesc(ls[1])->Some_0,
            summary: unesc(ls[2])->Some_0,
            attribute: unesc(ls[3])->Some_0,
            taboo: unesc(ls[4])->Some_0,
            keyword: unesc(ls[5])->Some_0,
        };
        match parse_lines(ls.skip(6)) {
            Some(rest) => Some(seq![m] + rest),
            None => None,
        }
    } else {
        None
    }
}

/// What a store text means: the parsed records when the text is
/// well-formed and its names are pairwise distinct, no records otherwise.
pub open spec fn decode_text(t: Seq<char>) -> Seq<MedicineView> {
    match split_lines(t) {
        Some(ls) => match parse_lines(ls) {
            Some(ms) => if wf_names(ms) {
                ms
            } else {
                Seq::empty()
            },
            None => Seq::empty(),
        },
        None => Seq::empty(),
    }
}

/// Serialization distributes over concatenation of record sequences.
pub proof fn lemma_encode_concat(a: Seq<MedicineView>, b: Seq<MedicineView>)
    ensures
        encode_records(a + b) == encode_records(a) + encode_records(b),
    decreases a.len(),
{
    if a.len() == 0 {
        assert(a + b =~= b);
        assert(encode_records(a) + encode_records(b) =~= encode_records(b));
    } else {
        lemma_encode_concat(a.drop_first(), b);
        assert((a + b).drop_first() =~= a.drop_first() + b);
        assert((a + b)[0] == a[0]);
        assert(encode_record(a[0]) + (encode_records(a.drop_first()) + encode_records(b)) =~= (
        encode_record(a[0]) + encode_records(a.drop_first())) + encode_records(b));
    }
}

/// The serialized text of a record sequence splits back into its lines
/// and parses back to exactly the records that were serialized.
#[verifier::rlimit(100)]
pub proof fn lemma_parse_encode(ms: Seq<MedicineView>)
    ensures
        split_lines(encode_records(ms)) is Some,
        parse_lines(split_lines(encode_records(ms))->Some_0) == Some(ms),
    decreases ms.len(),
{
    if ms.len() == 0 {
        assert(encode_records(ms) =~= Seq::<char>::empty());
        assert(Seq::<MedicineView>::empty() =~= ms);
    } else {
        lemma_parse_encode(ms.drop_first());
        let m = ms[0];
        let tail = encode_records(ms.drop_first());
        let lt = split_lines(tail)->Some_0;
        lemma_esc_no_newline(m.name);
        lemma_esc_no_newline(m.alias);
        lemma_esc_no_newline(m.summary);
        lemma_esc_no_newline(m.attribute);
        lemma_esc_no_newline(m.taboo);
        lemma_esc_no_newline(m.keyword);
        let t5 = esc(m.keyword) + seq!['\n'] + tail;
        lemma_split_line(esc(m.keyword), tail);
        let t4 = esc(m.taboo) + seq!['\n'] + t5;
        lemma_split_line(esc(m.taboo), t5);
        let t3 = esc(m.attribute) + seq!['\n'] + t4;
        lemma_split_line(esc(m.attribute), t4);
        let t2 = esc(m.summary) + seq!['\n'] + t3;
        lemma_split_line(esc(m.summary), t3);
        let t1 = esc(m.alias) + seq!['\n'] + t2;
        lemma_split_line(esc(m.alias), t2);
        let t0 = esc(m.name) + seq!['\n'] + t1;
        lemma_split_line(esc(m.name), t1);
        assert(encode_records(ms) =~= t0);
        let ls = split_lines(t0)->Some_0;
        assert(ls =~= seq![
            esc(m.name),
            esc(m.alias),
            esc(m.summary),
            esc(m.attribute),
            esc(m.taboo),
            esc(m.keyword),
        ] + lt);
        lemma_unesc_esc(m.name);
        lemma_unesc_esc(m.alias);
        lemma_unesc_esc(m.summary);
        lemma_unesc_esc(m.attribute);
        lemma_unesc_esc(m.taboo);
        lemma_unesc_esc(m.keyword);
        assert(ls.skip(6) =~= lt);
        let h = MedicineView {
            name: unesc(ls[0])->Some_0,
            alias: unesc(ls[1])->Some_0,
            summary: unesc(ls[2])->Some_0,
            attribute: unesc(ls[3])->Some_0,
            taboo: unesc(ls[4])->Some_0,
            keyword: unesc(ls[5])->Some_0,
        };
        assert(h =~= m);
        assert(parse_lines(ls) == Some(seq![h] + ms.drop_first()));
        assert(seq![h] + ms.drop_first() =~= ms);
    }
}

/// Decoding inverts encoding: the serialized text of a store decodes to
/// exactly the records that were serialized, payload and all.
pub proof fn lemma_flush_round_trip(ms: Seq<MedicineView>)
    requires
        wf_names(ms),
    ensures
        decode_text(encode_records(ms)) == ms,
{
    lemma_parse_encode(ms);
}

/// Serializes records in order, six lines a record.
pub fn encode_store(records: &Vec<Medicine>) -> (r: String)
    ensures
        r@ == encode_records(med_views(records@)),
{
    let mut out = String::new();
    let n = records.len();
    let mut i: usize = 0;
    proof {
        assert(med_views(records@).take(0) =~= Seq::<MedicineView>::empty());
        assert(out@ =~= encode_records(med_views(records@).take(0)));
    }
    while i < n
        invariant
            n == records@.len(),
            i <= n,
            out@ == encode_records(med_views(records@).take(i as int)),
        decreases n - i,
    {
        let ghost pre = out@;
        esc_append(&mut out, records[i].name.as_str());
        push_char(&mut out, '\n');
        esc_append(&mut out, records[i].alias.as_str());
        push_char(&mut out, '\n');
        esc_append(&mut out, records[i].summary.as_str());
        push_char(&mut out, '\n');
        esc_append(&mut out, records[i].attribute.as_str());
        push_char(&mut out, '\n');
        esc_append(&mut out, records[i].taboo.as_str());
        push_char(&mut out, '\n');
        esc_append(&mut out, records[i].keyword.as_str());
        push_char(&mut out, '\n');
        proof {
            let vs = med_views(records@);
            lemma_encode_concat(vs.take(i as int), seq![vs[i as int]]);
            assert(vs.take(i as int) + seq![vs[i as int]] =~= vs.take(i + 1));
            assert(seq![vs[i as int]][0] == vs[i as int]);
            assert(seq![vs[i as int]].drop_first() =~= Seq::<MedicineView>::empty());
            assert(encode_records(Seq::<MedicineView>::empty()) =~= Seq::<char>::empty());
            assert(encode_records(seq![vs[i as int]]) =~= encode_record(vs[i as int]) + Seq::<
                char,
            >::empty());
            assert(encode_records(seq![vs[i as int]]) =~= encode_record(vs[i as int]));
            assert(out@ =~= pre + encode_record(vs[i as int]));
            assert(out@ =~= encode_records(vs.take(i + 1)));
        }
        i = i + 1;
    }
    proof {
        assert(med_views(records@).take(n as int) =~= med_views(records@));
    }
    out
}

/// True exactly when no two records share a name.
fn check_unique(records: &Vec<Medicine>) -> (r: bool)
    ensures
        r == wf_names(med_views(records@)),
{
    let n = records.len();
    let mut i: usize = 0;
    while i < n
        invariant
            n == records@.len(),
            i <= n,
            forall|a: int, b: int|
                0 <= a < b < n && a < i ==> records@[a]@.name != records@[b]@.name,
        decreases n - i,
    {
        let mut j: usize = i + 1;
        while j < n
            invariant
                n == records@.len(),
                i < n,
                i + 1 <= j <= n,
                forall|a: int, b: int|
                    0 <= a < b < n && a < i ==> records@[a]@.name != records@[b]@.name,
                forall|b: int| i < b < j ==> records@[i as int]@.name != records@[b]@.name,
            decreases n - j,
        {
            if records[i].name == records[j].name {
                proof {
                    let ms = med_views(records@);
                    assert(ms[i as int].name == records@[i as int]@.name);
                    assert(ms[j as int].name == records@[j as int]@.name);
                    assert(!wf_names(ms));
                }
                return false;
            }
            j = j + 1;
        }
        proof {
            assert forall|a: int, b: int|
                0 <= a < b < n && a < i + 1 implies records@[a]@.name != records@[b]@.name by {
                if a == i as int {
                    assert(records@[i as int]@.name != records@[b]@.name);
                }
            }
        }
        i = i + 1;
    }
    proof {
        assert forall|a: int, b: int|
            0 <= a < b < med_views(records@).len() implies med_views(records@)[a].name
            != med_views(records@)[b].name by {
            assert(records@[a]@.name != records@[b]@.name);
        }
    }
    true
}

/// Deserializes a store text; malformed text yields no records, and so
/// does text whose records collide on a name.
pub fn decode_store(t: &str) -> (r: Vec<Medicine>)
    ensures
        med_views(r@) == decode_text(t@),
        wf_names(med_views(r@)),
{
    let empty: Vec<Medicine> = Vec::new();
    proof {
        assert(med_views(empty@) =~= Seq::<MedicineView>::empty());
    }
    let lines = match split_text(t) {
        Some(ls) => ls,
        None => {
            return empty;
        },
    };
    let ghost vs = str_views(lines@);
    let n = lines.len();
    let mut acc: Vec<Medicine> = Vec::new();
    let mut i: usize = 0;
    proof {
        assert(med_views(acc@) =~= Seq::<MedicineView>::empty());
        assert(vs.skip(0) =~= vs);
        if parse_lines(vs) is Some {
            assert(med_views(acc@) + parse_lines(vs)->Some_0 =~= parse_lines(vs)->Some_0);
        }
    }
    while n - i >= 6
        invariant
            n == lines@.len(),
            vs == str_views(lines@),
            split_lines(t@) == Some(vs),
            empty@ == Seq::<Medicine>::empty(),
            i <= n,
            parse_lines(vs.skip(i as int)) matches Some(rest) ==> parse_lines(vs) == Some(
                med_views(acc@) + rest,
            ),
            parse_lines(vs.skip(i as int)) is None ==> parse_lines(vs) is None,
        decreases n - i,
    {
        let ghost rem = vs.skip(i as int);
        proof {
            assert(rem.len() == n - i);
            assert(rem[0] == lines@[i as int]@);
            assert(rem[1] == lines@[i as int + 1]@);
            assert(rem[2] == lines@[i as int + 2]@);
            assert(rem[3] == lines@[i as int + 3]@);
            assert(rem[4] == lines@[i as int + 4]@);
            assert(rem[5] == lines@[i as int + 5]@);
            assert(rem.skip(6) =~= vs.skip(i as int + 6));
        }
        let l0 = unesc_line(lines[i].as_str());
        let l1 = unesc_line(lines[i + 1].as_str());
        let l2 = unesc_line(lines[i + 2].as_str());
        let l3 = unesc_line(lines[i + 3].as_str());
        let l4 = unesc_line(lines[i + 4].as_str());
        let l5 = unesc_line(lines[i + 5].as_str());
        match (l0, l1, l2, l3, l4, l5) {
            (Some(name), Some(alias), Some(summary), Some(attribute), Some(taboo), Some(
                keyword,
            )) => {
                let ghost pre = med_views(acc@);
                let m = Medicine { name, alias, summary, attribute, taboo, keyword };
                proof {
                    let h = MedicineView {
                        name: unesc(rem[0])->Some_0,
                        alias: unesc(rem[1])->Some_0,
                        summary: unesc(rem[2])->Some_0,
                        attribute: unesc(rem[3])->Some_0,
                        taboo: unesc(rem[4])->Some_0,
                        keyword: unesc(rem[5])->Some_0,
                    };
                    assert(m@ =~= h);
                }
                acc.push(m);
                proof {
                    assert(med_views(acc@) =~= pre.push(m@));
                    if parse_lines(vs.skip(i as int + 6)) is Some {
                        let rest = parse_lines(vs.skip(i as int + 6))->Some_0;
                        assert(parse_lines(rem) == Some(seq![m@] + rest));
                        assert(pre + (seq![m@] + rest) =~= med_views(acc@) + rest);
                    }
                }
                i = i + 6;
            },
            _ => {
                proof {
                    assert(parse_lines(rem) is None);
                    assert(med_views(empty@) =~= Seq::<MedicineView>::empty());
                    assert(decode_text(t@) == Seq::<MedicineView>::empty());
                }
                return empty;
            },
        }
    }
    if i != n {
        proof {
            assert(0 < vs.skip(i as int).len() < 6);
            assert(parse_lines(vs.skip(i as int)) is None);
        }
        return empty;
    }
    proof {
        assert(vs.skip(n as int) =~= Seq::<Seq<char>>::empty());
        assert(parse_lines(vs.skip(n as int)) == Some(Seq::<MedicineView>::empty()));
        assert(med_views(acc@) + Seq::<MedicineView>::empty() =~= med_views(acc@));
    }
    if check_unique(&acc) {
        acc
    } else {
        proof {
            assert(med_views(empty@) =~= Seq::<MedicineView>::empty());
        }
        empty
    }
}

} // verus!
