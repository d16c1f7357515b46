//! Wire format for directory listings: a JSON-style array of strings over
//! UTF-8 bytes, escaping exactly the two bytes that would break the encoding
//! (backslash and double quote). Embedded control characters pass through
//! unescaped; a consumer that insists on strict JSON will reject them. The
//! decoder here is the format's ground truth, and encoding then decoding
//! returns the original entries unchanged, in order.

use vstd::prelude::*;

verus! {

pub const QUOTE: u8 = 34;

pub const BACKSLASH: u8 = 92;

pub const LBRACK: u8 = 91;

pub const RBRACK: u8 = 93;

pub const COMMA: u8 = 44;

/// How one byte of an entry is written on the wire.
pub open spec fn escape_byte(b: u8) -> Seq<u8> {
    if b == QUOTE || b == BACKSLASH {
        seq![BACKSLASH, b]
    } else {
        seq![b]
    }
}

/// How an entry's bytes are written on the wire, between the quotes.
pub open spec fn escape_seq(s: Seq<u8>) -> Seq<u8>
    decreases s.len(),
{
    if s.len() == 0 {
        Seq::empty()
    } else {
        escape_byte(s[0]) + escape_seq(s.drop_first())
    }
}

/// One quoted entry on the wire.
pub open spec fn quoted(s: Seq<u8>) -> Seq<u8> {
    seq![QUOTE] + escape_seq(s) + seq![QUOTE]
}

/// A non-empty run of entries: each quoted, separated by commas, closed by
/// the bracket that ends the array.
pub open spec fn encode_items(es: Seq<Seq<u8>>) -> Seq<u8>
    decreases es.len(),
{
    if es.len() == 0 {
        Seq::empty()
    } else if es.len() == 1 {
        quoted(es[0]) + seq![RBRACK]
    } else {
        quoted(es[0]) + seq![COMMA] + encode_items(es.drop_first())
    }
}

/// The whole payload for a sequence of entries.
pub open spec fn encode_spec(es: Seq<Seq<u8>>) -> Seq<u8> {
    if es.len() == 0 {
        seq![LBRACK, RBRACK]
    } else {
        seq![LBRACK] + encode_items(es)
    }
}

/// Appending one byte to an entry appends its escape on the wire.
pub proof fn lemma_escape_snoc(s: Seq<u8>, b: u8)
    ensures
        escape_seq(s.push(b)) == escape_seq(s) + escape_byte(b),
    decreases s.len(),
{
    if s.len() == 0 {
        assert(escape_seq(s) == Seq::<u8>::empty());
        assert(s.push(b)[0] == b);
        assert(s.push(b).drop_first() =~= Seq::<u8>::empty());
        assert(escape_seq(s.push(b)) == escape_byte(b) + escape_seq(s.push(b).drop_first()));
        assert(escape_seq(s.push(b).drop_first()) == Seq::<u8>::empty());
        assert(escape_seq(s.push(b)) =~= escape_seq(s) + escape_byte(b));
    } else {
        assert(s.push(b)[0] == s[0]);
        assert(s.push(b).drop_first() =~= s.drop_first().push(b));
        assert(escape_seq(s.push(b)) == escape_byte(s[0]) + escape_seq(s.drop_first().push(b)));
        lemma_escape_snoc(s.drop_first(), b);
        assert(escape_seq(s) == escape_byte(s[0]) + escape_seq(s.drop_first()));
        assert(escape_seq(s.push(b)) =~= escape_seq(s) + escape_byte(b));
    }
}

/// Decoder state: where in the payload's grammar the scan stands.
pub enum RunState {
    ExpectFirst,
    ExpectNext { acc: Seq<Seq<u8>> },
    InStr { acc: Seq<Seq<u8>>, cur: Seq<u8> },
    Esc { acc: Seq<Seq<u8>>, cur: Seq<u8> },
    AfterItem { acc: Seq<Seq<u8>> },
    Finish { acc: Seq<Seq<u8>> },
}

/// Run the decoder over the remaining bytes from the given state. `None`
/// is a malformed payload.
pub open spec fn run(s: Seq<u8>, st: RunState) -> Option<Seq<Seq<u8>>>
    decreases s.len(),
{
    match st {
        RunState::Finish { acc } => if s.len() == 0 {
            Some(acc)
        } else {
            None
        },
        RunState::ExpectFirst => if s.len() == 0 {
            None
        } else if s[0] == QUOTE {
            run(s.drop_first(), RunState::InStr { acc: Seq::empty(), cur: Seq::empty() })
        } else if s[0] == RBRACK {
            run(s.drop_first(), RunState::Finish { acc: Seq::empty() })
        } else {
            None
        },
        RunState::ExpectNext { acc } => if s.len() == 0 {
            None
        } else if s[0] == QUOTE {
            run(s.drop_first(), RunState::InStr { acc, cur: Seq::empty() })
        } else {
            None
        },
        RunState::InStr { acc, cur } => if s.len() == 0 {
            None
        } else if s[0] == QUOTE {
            run(s.drop_first(), RunState::AfterItem { acc: acc.push(cur) })
        } else if s[0] == BACKSLASH {
            run(s.drop_first(), RunState::Esc { acc, cur })
        } else {
            run(s.drop_first(), RunState::InStr { acc, cur: cur.push(s[0]) })
        },
        RunState::Esc { acc, cur } => if s.len() == 0 {
            None
        } else {
            run(s.drop_first(), RunState::InStr { acc, cur: cur.push(s[0]) })
        },
        RunState::AfterItem { acc } => if s.len() == 0 {
            None
        } else if s[0] == COMMA {
            run(s.drop_first(), RunState::ExpectNext { acc })
        } else if s[0] == RBRACK {
            run(s.drop_first(), RunState::Finish { acc })
        } else {
            None
        },
    }
}

/// What a payload decodes to, if it is well formed.
pub open spec fn decode_spec(s: Seq<u8>) -> Option<Seq<Seq<u8>>> {
    if s.len() == 0 || s[0] != LBRACK {
        None
    } else {
        run(s.drop_first(), RunState::ExpectFirst)
    }
}

/// Scanning an escaped entry followed by its closing quote lands exactly
/// after the quote, with the entry recovered unchanged.
proof fn lemma_scan_entry(e: Seq<u8>, rest: Seq<u8>, acc: Seq<Seq<u8>>, cur: Seq<u8>)
    ensures
        run(escape_seq(e) + seq![QUOTE] + rest, RunState::InStr { acc, cur }) == run(
            rest,
            RunState::AfterItem { acc: acc.push(cur + e) },
        ),
    decreases e.len(),
{
    let s = escape_seq(e) + seq![QUOTE] + rest;
    if e.len() == 0 {
        assert(escape_seq(e) == Seq::<u8>::empty());
        assert(s[0] == QUOTE);
        assert(s.drop_first() =~= rest);
        assert(run(s, RunState::InStr { acc, cur }) == run(
            s.drop_first(),
            RunState::AfterItem { acc: acc.push(cur) },
        ));
        assert(cur + e =~= cur);
    } else {
        let e0 = e[0];
        let etail = e.drop_first();
        assert(escape_seq(e) == escape_byte(e0) + escape_seq(etail));
        if e0 == QUOTE || e0 == BACKSLASH {
            assert(s =~= seq![BACKSLASH, e0] + (escape_seq(etail) + seq![QUOTE] + rest));
            assert(s[0] == BACKSLASH);
            assert(s.drop_first() =~= seq![e0] + (escape_seq(etail) + seq![QUOTE] + rest));
            let s1 = s.drop_first();
            assert(run(s, RunState::InStr { acc, cur }) == run(s1, RunState::Esc { acc, cur }));
            assert(s1[0] == e0);
            assert(s1.drop_first() =~= escape_seq(etail) + seq![QUOTE] + rest);
            assert(run(s1, RunState::Esc { acc, cur }) == run(
                s1.drop_first(),
                RunState::InStr { acc, cur: cur.push(e0) },
            ));
            lemma_scan_entry(etail, rest, acc, cur.push(e0));
            assert(cur.push(e0) + etail =~= cur + e);
        } else {
            assert(s =~= seq![e0] + (escape_seq(etail) + seq![QUOTE] + rest));
            assert(s[0] == e0);
            assert(s.drop_first() =~= escape_seq(etail) + seq![QUOTE] + rest);
            assert(run(s, RunState::InStr { acc, cur }) == run(
                s.drop_first(),
                RunState::InStr { acc, cur: cur.push(e0) },
            ));
            lemma_scan_entry(etail, rest, acc, cur.push(e0));
            assert(cur.push(e0) + etail =~= cur + e);
        }
    }
}

/// Scanning an encoded run of entries from a state that expects an entry
/// accepts exactly those entries, appended to what was already read.
proof fn lemma_scan_items(es: Seq<Seq<u8>>, acc: Seq<Seq<u8>>)
    requires
        es.len() > 0,
    ensures
        run(encode_items(es), RunState::ExpectNext { acc }) == Some(acc + es),
    decreases es.len(),
{
    let s = encode_items(es);
    let head = es[0];
    if es.len() == 1 {
        assert(s == quoted(head) + seq![RBRACK]);
        assert(s =~= seq![QUOTE] + (escape_seq(head) + seq![QUOTE] + seq![RBRACK]));
        assert(s[0] == QUOTE);
        assert(s.drop_first() =~= escape_seq(head) + seq![QUOTE] + seq![RBRACK]);
        assert(run(s, RunState::ExpectNext { acc }) == run(
            s.drop_first(),
            RunState::InStr { acc, cur: Seq::empty() },
        ));
        lemma_scan_entry(head, seq![RBRACK], acc, Seq::empty());
        assert(Seq::<u8>::empty() + head =~= head);
        let after = seq![RBRACK];
        assert(after[0] == RBRACK);
        assert(after.drop_first() =~= Seq::<u8>::empty());
        assert(run(after, RunState::AfterItem { acc: acc.push(head) }) == run(
            after.drop_first(),
            RunState::Finish { acc: acc.push(head) },
        ));
        assert(run(after.drop_first(), RunState::Finish { acc: acc.push(head) }) == Some(
            acc.push(head),
        ));
        assert(acc.push(head) =~= acc + es);
    } else {
        let tail = es.drop_first();
        assert(s == quoted(head) + seq![COMMA] + encode_items(tail));
        assert(s =~= seq![QUOTE] + (escape_seq(head) + seq![QUOTE] + (seq![COMMA]
            + encode_items(tail))));
        assert(s[0] == QUOTE);
        assert(s.drop_first() =~= escape_seq(head) + seq![QUOTE] + (seq![COMMA] + encode_items(
            tail,
        )));
        assert(run(s, RunState::ExpectNext { acc }) == run(
            s.drop_first(),
            RunState::InStr { acc, cur: Seq::empty() },
        ));
        lemma_scan_entry(head, seq![COMMA] + encode_items(tail), acc, Seq::empty());
        assert(Seq::<u8>::empty() + head =~= head);
        let after = seq![COMMA] + encode_items(tail);
        assert(after[0] == COMMA);
        assert(after.drop_first() =~= encode_items(tail));
        assert(run(after, RunState::AfterItem { acc: acc.push(head) }) == run(
            after.drop_first(),
            RunState::ExpectNext { acc: acc.push(head) },
        ));
        lemma_scan_items(tail, acc.push(head));
        assert(acc.push(head) + tail =~= acc + es);
    }
}

/// Encoding entries and decoding the payload returns the entries exactly,
/// preserving order: the wire format loses nothing, for every entry value.
pub proof fn lemma_decode_encode(es: Seq<Seq<u8>>)
    ensures
        decode_spec(encode_spec(es)) == Some(es),
{
    let p = encode_spec(es);
    if es.len() == 0 {
        assert(p == seq![LBRACK, RBRACK]);
        assert(p[0] == LBRACK);
        assert(decode_spec(p) == run(p.drop_first(), RunState::ExpectFirst));
        let r = p.drop_first();
        assert(r =~= seq![RBRACK]);
        assert(r[0] == RBRACK);
        assert(run(r, RunState::ExpectFirst) == run(
            r.drop_first(),
            RunState::Finish { acc: Seq::empty() },
        ));
        assert(r.drop_first() =~= Seq::<u8>::empty());
        assert(run(r.drop_first(), RunState::Finish { acc: Seq::empty() }) == Some(
            Seq::<Seq<u8>>::empty(),
        ));
        assert(Seq::<Seq<u8>>::empty() =~= es);
    } else {
        assert(p == seq![LBRACK] + encode_items(es));
        let s = encode_items(es);
        assert(p[0] == LBRACK);
        assert(p.drop_first() =~= s);
        assert(decode_spec(p) == run(s, RunState::ExpectFirst));
        if es.len() == 1 {
            assert(s == quoted(es[0]) + seq![RBRACK]);
        } else {
            assert(s == quoted(es[0]) + seq![COMMA] + encode_items(es.drop_first()));
        }
        assert(quoted(es[0])[0] == QUOTE);
        assert(s[0] == QUOTE);
        assert(run(s, RunState::ExpectFirst) == run(
            s.drop_first(),
            RunState::InStr { acc: Seq::empty(), cur: Seq::empty() },
        ));
        assert(run(s, RunState::ExpectNext { acc: Seq::empty() }) == run(
            s.drop_first(),
            RunState::InStr { acc: Seq::empty(), cur: Seq::empty() },
        ));
        lemma_scan_items(es, Seq::empty());
        assert(Seq::<Seq<u8>>::empty() + es =~= es);
    }
}

/// Serialize the ordered entry names into one self-describing payload.
pub fn encode_entries(entries: &Vec<Vec<u8>>) -> (r: Vec<u8>)
    ensures
        r@ == encode_spec(entries.deep_view()),
{
    let ghost dv = entries.deep_view();
    let mut out: Vec<u8> = Vec::new();
    out.push(LBRACK);
    if entries.len() == 0 {
        out.push(RBRACK);
        proof {
            assert(dv.len() == 0);
            assert(out@ =~= encode_spec(dv));
        }
        return out;
    }
    let n = entries.len();
    proof {
        assert(out@ =~= seq![LBRACK]);
        assert(dv.skip(0) =~= dv);
        assert(encode_spec(dv) == seq![LBRACK] + encode_items(dv));
    }
    let mut k: usize = 0;
    while k < n
        invariant
            n == entries.len(),
            n == dv.len(),
            n > 0,
            k <= n,
            dv == entries.deep_view(),
            forall|m: int| 0 <= m < n ==> dv[m] == entries@[m]@,
            k < n ==> encode_spec(dv) == out@ + encode_items(dv.skip(k as int)),
            k == n ==> out@ == encode_spec(dv),
        decreases n - k,
    {
        proof {
            assert(dv.skip(k as int)[0] == dv[k as int]);
            assert(dv.skip(k as int).len() == n - k);
            assert(dv.skip(k as int).drop_first() =~= dv.skip(k + 1));
        }
        let ghost out0 = out@;
        let entry = &entries[k];
        out.push(QUOTE);
        proof {
            assert(entry@.take(0) =~= Seq::<u8>::empty());
            assert(escape_seq(entry@.take(0)) == Seq::<u8>::empty());
            assert(out@ =~= out0 + seq![QUOTE] + escape_seq(entry@.take(0)));
        }
        let mut j: usize = 0;
        while j < entry.len()
            invariant
                j <= entry.len(),
                out@ == out0 + seq![QUOTE] + escape_seq(entry@.take(j as int)),
            decreases entry.len() - j,
        {
            let b = entry[j];
            if b == QUOTE || b == BACKSLASH {
                out.push(BACKSLASH);
            }
            out.push(b);
            proof {
                assert(entry@.take(j + 1) =~= entry@.take(j as int).push(entry@[j as int]));
                lemma_escape_snoc(entry@.take(j as int), entry@[j as int]);
                assert(out@ =~= out0 + seq![QUOTE] + escape_seq(entry@.take(j + 1)));
            }
            j = j + 1;
        }
        out.push(QUOTE);
        proof {
            assert(entry@.take(entry@.len() as int) =~= entry@);
            assert(out@ =~= out0 + quoted(dv[k as int]));
        }
        if k == n - 1 {
            out.push(RBRACK);
            proof {
                assert(dv.skip(k as int).len() == 1);
                assert(encode_items(dv.skip(k as int)) == quoted(dv[k as int]) + seq![RBRACK]);
                assert(out@ =~= out0 + encode_items(dv.skip(k as int)));
                assert(out@ =~= encode_spec(dv));
            }
        } else {
            out.push(COMMA);
            proof {
                assert(dv.skip(k as int).len() > 1);
                assert(encode_items(dv.skip(k as int)) == quoted(dv[k as int]) + seq![COMMA]
                    + encode_items(dv.skip(k + 1)));
                assert(out@ + encode_items(dv.skip(k + 1)) =~= out0 + encode_items(
                    dv.skip(k as int),
                ));
            }
        }
        k = k + 1;
    }
    out
}

/// Executable decoder position, mirroring the grammar states.
#[derive(Clone, Copy)]
enum DecTag {
    First,
    Next,
    InStr,
    Esc,
    After,
    Fin,
}

/// The decoder state that an executable position and its working values
/// stand for.
spec fn st_of(tag: DecTag, acc: Seq<Seq<u8>>, cur: Seq<u8>) -> RunState {
    match tag {
        DecTag::First => RunState::ExpectFirst,
        DecTag::Next => RunState::ExpectNext { acc },
        DecTag::InStr => RunState::InStr { acc, cur },
        DecTag::Esc => RunState::Esc { acc, cur },
        DecTag::After => RunState::AfterItem { acc },
        DecTag::Fin => RunState::Finish { acc },
    }
}

/// Parse a payload back into its entries; `None` on a malformed payload.
pub fn decode_entries(payload: &Vec<u8>) -> (r: Option<Vec<Vec<u8>>>)
    ensures
        match r {
            Some(v) => decode_spec(payload@) == Some(v.deep_view()),
            None => decode_spec(payload@) is None,
        },
{
    if payload.len() == 0 {
        return None;
    }
    if payload[0] != LBRACK {
        return None;
    }
    let mut tag = DecTag::First;
    let mut acc: Vec<Vec<u8>> = Vec::new();
    let mut cur: Vec<u8> = Vec::new();
    let mut i: usize = 1;
    proof {
        assert(payload@.skip(1) =~= payload@.drop_first());
        assert(acc.deep_view() =~~= Seq::<Seq<u8>>::empty());
        assert(decode_spec(payload@) == run(payload@.skip(1), RunState::ExpectFirst));
    }
    while i < payload.len()
        invariant
            1 <= i <= payload@.len(),
            decode_spec(payload@) == run(
                payload@.skip(i as int),
                st_of(tag, acc.deep_view(), cur@),
            ),
            tag is First ==> acc.deep_view() == Seq::<Seq<u8>>::empty(),
            !(tag is InStr || tag is Esc) ==> cur@ == Seq::<u8>::empty(),
        decreases payload.len() - i,
    {
        let b = payload[i];
        proof {
            assert(payload@.skip(i as int).len() == payload@.len() - i);
            assert(payload@.skip(i as int)[0] == payload@[i as int]);
            assert(payload@.skip(i as int).drop_first() =~= payload@.skip(i + 1));
        }
        let ghost s_here = payload@.skip(i as int);
        let ghost st_here = st_of(tag, acc.deep_view(), cur@);
        match tag {
            DecTag::First => {
                if b == QUOTE {
                    tag = DecTag::InStr;
                } else if b == RBRACK {
                    tag = DecTag::Fin;
                } else {
                    proof {
                        assert(run(s_here, st_here) is None);
                    }
                    return None;
                }
            },
            DecTag::Next => {
                if b == QUOTE {
                    tag = DecTag::InStr;
                } else {
                    proof {
                        assert(run(s_here, st_here) is None);
                    }
                    return None;
                }
            },
            DecTag::InStr => {
                if b == QUOTE {
                    let ghost acc0 = acc.deep_view();
                    let ghost cur0 = cur@;
                    let done = cur;
                    cur = Vec::new();
                    acc.push(done);
                    tag = DecTag::After;
                    proof {
                        assert(acc.deep_view() =~~= acc0.push(cur0));
                    }
                } else if b == BACKSLASH {
                    tag = DecTag::Esc;
                } else {
                    cur.push(b);
                }
            },
            DecTag::Esc => {
                cur.push(b);
                tag = DecTag::InStr;
            },
            DecTag::After => {
                if b == COMMA {
                    tag = DecTag::Next;
                } else if b == RBRACK {
                    tag = DecTag::Fin;
                } else {
                    proof {
                        assert(run(s_here, st_here) is None);
                    }
                    return None;
                }
            },
            DecTag::Fin => {
                proof {
                    assert(run(s_here, st_here) is None);
                }
                return None;
            },
        }
        proof {
            assert(run(s_here, st_here) == run(
                payload@.skip(i + 1),
                st_of(tag, acc.deep_view(), cur@),
            ));
        }
        i = i + 1;
    }
    proof {
        assert(payload@.skip(payload@.len() as int) =~= Seq::<u8>::empty());
    }
    match tag {
        DecTag::Fin => {
            proof {
                assert(decode_spec(payload@) == Some(acc.deep_view()));
            }
            Some(acc)
        },
        _ => {
            proof {
                assert(decode_spec(payload@) is None);
            }
            None
        },
    }
}

} // verus!
