//! The stored form of a record: one line of text that names each field,
//!
//! `{"id":"..","pk":"..","to":"..","amt":"..","code":"..","nonce":"..","fee":"..","data":"..","sig":"..","conf":0}`
//!
//! with the strings quoted as in `text` and the count in decimal. A record has
//! exactly one such text, and `decode` accepts no other.
use crate::numeral::{
    decimal, lemma_parse_decimal, lemma_parse_decimal_canonical, parse_u32, push_decimal, read_u32,
};
use crate::text::{
    chars_of, lemma_parse_quoted, lemma_parse_quoted_canonical, parse_quoted, push_quoted, quoted,
    read_quoted,
};
use crate::tx::{signed_fields, Tx, TxView};
use vstd::prelude::*;
use vstd::string::*;

verus! {

/// The text that stands before each of the nine string fields.
pub open spec fn labels() -> Seq<Seq<char>> {
    seq![
        "{\"id\":"@,
        ",\"pk\":"@,
        ",\"to\":"@,
        ",\"amt\":"@,
        ",\"code\":"@,
        ",\"nonce\":"@,
        ",\"fee\":"@,
        ",\"data\":"@,
        ",\"sig\":"@,
    ]
}

/// The text that stands before the confirmation count.
pub open spec fn conf_label() -> Seq<char> {
    ",\"conf\":"@
}

/// The text that ends a record.
pub open spec fn closing() -> Seq<char> {
    "}"@
}

/// The string fields of a record in the order in which they are written.
pub open spec fn string_fields(v: TxView) -> Seq<Seq<char>> {
    signed_fields(v).push(v.sig)
}

/// The record with the given string fields and confirmation count.
pub open spec fn record_of(values: Seq<Seq<char>>, conf: u32) -> TxView
    recommends
        values.len() == 9,
{
    TxView {
        id: values[0],
        pk: values[1],
        to: values[2],
        amt: values[3],
        code: values[4],
        nonce: values[5],
        fee: values[6],
        data: values[7],
        sig: values[8],
        conf,
    }
}

/// The text of the string fields from the `k`-th on: each label, then its
/// value in quotes.
pub open spec fn members_from(k: int, values: Seq<Seq<char>>) -> Seq<char>
    decreases 9 - k,
{
    if 0 <= k < 9 {
        labels()[k] + quoted(values[k]) + members_from(k + 1, values)
    } else {
        Seq::empty()
    }
}

/// The stored form of a record.
pub open spec fn encoding(v: TxView) -> Seq<char> {
    members_from(0, string_fields(v)) + conf_label() + decimal(v.conf as nat) + closing()
}

/// `t` without `p` at its front, if it stands there.
pub open spec fn strip_prefix(t: Seq<char>, p: Seq<char>) -> Option<Seq<char>> {
    if p.is_prefix_of(t) {
        Some(t.skip(p.len() as int))
    } else {
        None
    }
}

/// Reads a label and the quoted string after it.
pub open spec fn parse_member(t: Seq<char>, label: Seq<char>) -> Option<(Seq<char>, Seq<char>)> {
    match strip_prefix(t, label) {
        Some(t1) => parse_quoted(t1),
        None => None,
    }
}

/// Reads the string fields from the `k`-th on: their values, and what follows.
pub open spec fn parse_members_from(k: int, t: Seq<char>) -> Option<(Seq<Seq<char>>, Seq<char>)>
    decreases 9 - k,
{
    if 0 <= k < 9 {
        match parse_member(t, labels()[k]) {
            Some((value, t1)) => match parse_members_from(k + 1, t1) {
                Some((values, rest)) => Some((seq![value] + values, rest)),
                None => None,
            },
            None => None,
        }
    } else {
        Some((Seq::empty(), t))
    }
}

/// Reads a whole record. Nothing may follow it.
pub open spec fn parse_record(t: Seq<char>) -> Option<TxView> {
    match parse_members_from(0, t) {
        Some((values, t1)) => match strip_prefix(t1, conf_label()) {
            Some(t2) => match parse_u32(t2) {
                Some((conf, t3)) => if t3 == closing() {
                    Some(record_of(values, conf))
                } else {
                    None
                },
                None => None,
            },
            None => None,
        },
        None => None,
    }
}

proof fn lemma_strip_prefix(p: Seq<char>, rest: Seq<char>)
    ensures
        strip_prefix(p + rest, p) == Some(rest),
{
    assert((p + rest).subrange(0, p.len() as int) =~= p);
    assert((p + rest).skip(p.len() as int) =~= rest);
}

proof fn lemma_strip_prefix_canonical(t: Seq<char>, p: Seq<char>)
    requires
        strip_prefix(t, p) is Some,
    ensures
        t == p + strip_prefix(t, p).unwrap(),
{
    assert(t =~= t.subrange(0, p.len() as int) + t.skip(p.len() as int));
}

proof fn lemma_parse_members(k: int, values: Seq<Seq<char>>, rest: Seq<char>)
    requires
        0 <= k <= 9,
        values.len() == 9,
    ensures
        parse_members_from(k, members_from(k, values) + rest) == Some((values.skip(k), rest)),
    decreases 9 - k,
{
    let t = members_from(k, values) + rest;
    if k < 9 {
        let after = members_from(k + 1, values) + rest;
        assert(t =~= labels()[k] + (quoted(values[k]) + after));
        lemma_strip_prefix(labels()[k], quoted(values[k]) + after);
        lemma_parse_quoted(values[k], after);
        lemma_parse_members(k + 1, values, rest);
        assert(seq![values[k]] + values.skip(k + 1) =~= values.skip(k));
    } else {
        assert(t =~= rest);
        assert(values.skip(k) =~= Seq::<Seq<char>>::empty());
    }
}

proof fn lemma_parse_members_canonical(k: int, t: Seq<char>)
    requires
        0 <= k <= 9,
        parse_members_from(k, t) is Some,
    ensures
        parse_members_from(k, t).unwrap().0.len() == 9 - k,
        forall|values: Seq<Seq<char>>|
            values.len() == 9 && values.skip(k) == parse_members_from(k, t).unwrap().0 ==> t
                == members_from(k, values) + parse_members_from(k, t).unwrap().1,
    decreases 9 - k,
{
    let (found, rest) = parse_members_from(k, t).unwrap();
    if k < 9 {
        let t1 = strip_prefix(t, labels()[k]).unwrap();
        lemma_strip_prefix_canonical(t, labels()[k]);
        let (value, t2) = parse_quoted(t1).unwrap();
        lemma_parse_quoted_canonical(t1);
        lemma_parse_members_canonical(k + 1, t2);
        let (tail, rest2) = parse_members_from(k + 1, t2).unwrap();
        assert(found == seq![value] + tail);
        assert forall|values: Seq<Seq<char>>|
            values.len() == 9 && values.skip(k) == found implies t == members_from(k, values)
            + rest by {
            assert(values[k] == values.skip(k)[0]);
            assert(values.skip(k + 1) =~= values.skip(k).skip(1));
            assert(found.skip(1) =~= tail);
            assert(t2 == members_from(k + 1, values) + rest);
            assert(t =~= members_from(k, values) + rest);
        }
    } else {
        assert forall|values: Seq<Seq<char>>|
            values.len() == 9 && values.skip(k) == found implies t == members_from(k, values)
            + rest by {
            assert(t =~= members_from(k, values) + rest);
        }
    }
}

/// Decoding the stored form of a record gives the record back.
pub proof fn lemma_decode_encode(v: TxView)
    ensures
        parse_record(encoding(v)) == Some(v),
{
    let values = string_fields(v);
    let tail = conf_label() + decimal(v.conf as nat) + closing();
    assert(encoding(v) =~= members_from(0, values) + tail);
    lemma_parse_members(0, values, tail);
    assert(values.skip(0) =~= values);
    assert(tail =~= conf_label() + (decimal(v.conf as nat) + closing()));
    lemma_strip_prefix(conf_label(), decimal(v.conf as nat) + closing());
    reveal_strlit("}");
    lemma_parse_decimal(v.conf as nat, closing());
}

/// Whatever decodes to a record is the stored form of that record: no two
/// texts stand for the same record.
pub proof fn lemma_encode_decode(t: Seq<char>)
    requires
        parse_record(t) is Some,
    ensures
        t == encoding(parse_record(t).unwrap()),
{
    let v = parse_record(t).unwrap();
    let (values, t1) = parse_members_from(0, t).unwrap();
    lemma_parse_members_canonical(0, t);
    let t2 = strip_prefix(t1, conf_label()).unwrap();
    lemma_strip_prefix_canonical(t1, conf_label());
    let (conf, t3) = parse_u32(t2).unwrap();
    lemma_parse_decimal_canonical(t2);
    let fields = string_fields(v);
    assert(fields =~= values);
    assert(fields.skip(0) =~= fields);
    assert(t == members_from(0, fields) + t1);
    assert(t =~= encoding(v));
}

/// Two records with the same stored form are the same record.
pub proof fn lemma_encoding_injective(a: TxView, b: TxView)
    requires
        encoding(a) == encoding(b),
    ensures
        a == b,
{
    lemma_decode_encode(a);
    lemma_decode_encode(b);
}

/// The text of the string fields before the `k`-th.
spec fn members_upto(k: int, values: Seq<Seq<char>>) -> Seq<char>
    decreases k,
{
    if 0 < k <= 9 {
        members_upto(k - 1, values) + labels()[k - 1] + quoted(values[k - 1])
    } else {
        Seq::empty()
    }
}

proof fn lemma_members_split(k: int, values: Seq<Seq<char>>)
    requires
        0 <= k <= 9,
    ensures
        members_from(0, values) == members_upto(k, values) + members_from(k, values),
    decreases k,
{
    if k > 0 {
        lemma_members_split(k - 1, values);
        assert(members_upto(k - 1, values) + members_from(k - 1, values) =~= members_upto(k, values)
            + members_from(k, values));
    } else {
        assert(members_upto(k, values) + members_from(k, values) =~= members_from(k, values));
    }
}

/// The label of the `k`-th string field.
fn label(k: usize) -> (text: &'static str)
    requires
        k < 9,
    ensures
        text@ == labels()[k as int],
{
    if k == 0 {
        "{\"id\":"
    } else if k == 1 {
        ",\"pk\":"
    } else if k == 2 {
        ",\"to\":"
    } else if k == 3 {
        ",\"amt\":"
    } else if k == 4 {
        ",\"code\":"
    } else if k == 5 {
        ",\"nonce\":"
    } else if k == 6 {
        ",\"fee\":"
    } else if k == 7 {
        ",\"data\":"
    } else {
        ",\"sig\":"
    }
}

/// The `k`-th string field of a record.
fn field(tx: &Tx, k: usize) -> (text: &str)
    requires
        k < 9,
    ensures
        text@ == string_fields(tx@)[k as int],
{
    if k == 0 {
        tx.id.as_str()
    } else if k == 1 {
        tx.pk.as_str()
    } else if k == 2 {
        tx.to.as_str()
    } else if k == 3 {
        tx.amt.as_str()
    } else if k == 4 {
        tx.code.as_str()
    } else if k == 5 {
        tx.nonce.as_str()
    } else if k == 6 {
        tx.fee.as_str()
    } else if k == 7 {
        tx.data.as_str()
    } else {
        tx.sig.as_str()
    }
}

/// Writes a record in its stored form.
pub fn encode(tx: &Tx) -> (text: String)
    ensures
        text@ == encoding(tx@),
{
    let ghost values = string_fields(tx@);
    let mut out = String::new();
    let mut k: usize = 0;
    while k < 9
        invariant
            k <= 9,
            values == string_fields(tx@),
            out@ == members_upto(k as int, values),
        decreases 9 - k,
    {
        out.append(label(k));
        push_quoted(&mut out, field(tx, k));
        k += 1;
    }
    out.append(",\"conf\":");
    push_decimal(&mut out, tx.conf);
    out.append("}");
    proof {
        lemma_members_split(9, values);
        assert(members_from(0, values) =~= members_upto(9, values));
    }
    out
}

/// Looks for `lit` at position `start` of `t`: the position after it.
fn expect(t: &Vec<char>, start: usize, lit: &str) -> (r: Option<usize>)
    requires
        start <= t.len(),
    ensures
        match r {
            Some(next) => start <= next <= t.len() && strip_prefix(t@.skip(start as int), lit@)
                == Some(t@.skip(next as int)),
            None => strip_prefix(t@.skip(start as int), lit@) is None,
        },
{
    let p = chars_of(lit);
    let ghost u = t@.skip(start as int);
    if p.len() > t.len() - start {
        return None;
    }
    let mut k: usize = 0;
    while k < p.len()
        invariant
            k <= p.len(),
            p@ == lit@,
            start + p.len() <= t.len(),
            u == t@.skip(start as int),
            forall|j: int| 0 <= j < k ==> u[j] == p@[j],
        decreases p.len() - k,
    {
        if t[start + k] != p[k] {
            proof {
                assert(u.subrange(0, p.len() as int)[k as int] == u[k as int]);
            }
            return None;
        }
        k += 1;
    }
    proof {
        assert(p@ =~= u.subrange(0, p.len() as int));
        assert(u.skip(p.len() as int) =~= t@.skip(start + p.len()));
    }
    Some(start + p.len())
}

/// Reads a record from its stored form. Gives the record exactly when `text`
/// is the stored form of one.
pub fn decode(text: &str) -> (r: Option<Tx>)
    ensures
        match r {
            Some(tx) => parse_record(text@) == Some(tx@) && text@ == encoding(tx@),
            None => parse_record(text@) is None && forall|v: TxView| encoding(v) != text@,
        },
{
    let t = chars_of(text);
    proof {
        if parse_record(text@) is Some {
            lemma_encode_decode(text@);
        }
        assert forall|v: TxView| encoding(v) == text@ implies parse_record(text@) is Some by {
            lemma_decode_encode(v);
        }
    }
    read_record(&t)
}

/// Reads a record from the characters of its stored form.
fn read_record(t: &Vec<char>) -> (r: Option<Tx>)
    ensures
        match r {
            Some(tx) => parse_record(t@) == Some(tx@),
            None => parse_record(t@) is None,
        },
{
    proof {
        assert(t@.skip(0) =~= t@);
    }
    let mut values: Vec<String> = Vec::new();
    let mut i: usize = 0;
    let mut k: usize = 0;
    while k < 9
        invariant
            k <= 9,
            i <= t.len(),
            values@.len() == k,
            parse_members_from(0, t@) == match parse_members_from(k as int, t@.skip(i as int)) {
                Some((found, rest)) => Some((values@.map_values(|s: String| s@) + found, rest)),
                None => None,
            },
        decreases 9 - k,
    {
        let after_label = match expect(t, i, label(k)) {
            Some(j) => j,
            None => {
                return None;
            },
        };
        let (value, next) = match read_quoted(t, after_label) {
            Some(pair) => pair,
            None => {
                return None;
            },
        };
        proof {
            let now = values@.map_values(|s: String| s@);
            let then = values@.push(value).map_values(|s: String| s@);
            assert(then =~= now.push(value@));
            match parse_members_from(k + 1, t@.skip(next as int)) {
                Some((found, rest)) => {
                    assert(now.push(value@) + found =~= now + (seq![value@] + found));
                },
                None => {},
            }
        }
        values.push(value);
        i = next;
        k += 1;
    }
    proof {
        assert(values@.map_values(|s: String| s@) + Seq::<Seq<char>>::empty()
            =~= values@.map_values(|s: String| s@));
    }
    let after_label = match expect(t, i, ",\"conf\":") {
        Some(j) => j,
        None => {
            return None;
        },
    };
    let (conf, end) = match read_u32(t, after_label) {
        Some(pair) => pair,
        None => {
            return None;
        },
    };
    let last = match expect(t, end, "}") {
        Some(j) => j,
        None => {
            proof {
                let rest = t@.skip(end as int);
                assert(closing().subrange(0, closing().len() as int) =~= closing());
            }
            return None;
        },
    };
    if last != t.len() {
        proof {
            let rest = t@.skip(end as int);
            assert(rest.len() == t.len() - end);
            assert(t@.skip(last as int).len() == t.len() - last);
        }
        return None;
    }
    proof {
        let rest = t@.skip(end as int);
        assert(t@.skip(last as int) =~= Seq::<char>::empty());
        lemma_strip_prefix_canonical(rest, closing());
        assert(rest =~= closing());
    }
    let ghost all = values@.map_values(|s: String| s@);
    let sig = values.pop().unwrap();
    let data = values.pop().unwrap();
    let fee = values.pop().unwrap();
    let nonce = values.pop().unwrap();
    let code = values.pop().unwrap();
    let amt = values.pop().unwrap();
    let to = values.pop().unwrap();
    let pk = values.pop().unwrap();
    let id = values.pop().unwrap();
    let tx = Tx { id, pk, to, amt, code, nonce, fee, data, sig, conf };
    proof {
        assert(tx@ == record_of(all, conf));
    }
    Some(tx)
}

} // verus!
