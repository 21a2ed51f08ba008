//! The transaction record: an immutable signed payload with a confirmation
//! counter.
use crate::numeral::{hexadecimal, push_hexadecimal};
use crate::random::{hex_padded, lemma_hex_padded_len, random_u128, uuid_simple};
use crate::signing::{
    derive_public_key, ecdsa_accepts, generate_secret, public_key_text, sign_payload,
    verify_signature,
};
use crate::text::{lemma_parse_quoted, push_quoted, quoted};
use vstd::prelude::*;
use vstd::string::*;

verus! {

/// A transaction awaiting confirmation. Every field but `conf` is text: the
/// sender's public key and the signature are held in the hexadecimal form in
/// which they are stored and exchanged.
#[derive(Clone, Debug)]
pub struct Tx {
    /// The identifier.
    pub id: String,
    /// The sender's public key.
    pub pk: String,
    /// The recipient's address.
    pub to: String,
    /// The amount.
    pub amt: String,
    /// The code.
    pub code: String,
    /// The nonce.
    pub nonce: String,
    /// The fee.
    pub fee: String,
    /// Auxiliary data.
    pub data: String,
    /// The sender's signature over the payload.
    pub sig: String,
    /// How often the record has been confirmed.
    pub conf: u32,
}

/// What a record holds, as mathematical values.
pub struct TxView {
    pub id: Seq<char>,
    pub pk: Seq<char>,
    pub to: Seq<char>,
    pub amt: Seq<char>,
    pub code: Seq<char>,
    pub nonce: Seq<char>,
    pub fee: Seq<char>,
    pub data: Seq<char>,
    pub sig: Seq<char>,
    pub conf: u32,
}

impl View for Tx {
    type V = TxView;

    open spec fn view(&self) -> TxView {
        TxView {
            id: self.id@,
            pk: self.pk@,
            to: self.to@,
            amt: self.amt@,
            code: self.code@,
            nonce: self.nonce@,
            fee: self.fee@,
            data: self.data@,
            sig: self.sig@,
            conf: self.conf,
        }
    }
}

/// A payload together with the signature over it.
#[derive(Clone, Debug, PartialEq, Eq, Hash)]
pub struct TxMessage {
    /// The payload that was signed.
    pub msg: String,
    /// The signature.
    pub sig: String,
}

impl PartialEq for Tx {
    fn eq(&self, other: &Tx) -> (r: bool) {
        self.id == other.id && self.pk == other.pk && self.to == other.to && self.amt == other.amt
            && self.code == other.code && self.nonce == other.nonce && self.fee == other.fee
            && self.data == other.data && self.sig == other.sig && self.conf == other.conf
    }
}

impl vstd::std_specs::cmp::PartialEqSpecImpl for Tx {
    open spec fn obeys_eq_spec() -> bool {
        true
    }

    open spec fn eq_spec(&self, other: &Tx) -> bool {
        self@ == other@
    }
}

impl Eq for Tx {

}

/// The fields that the signature covers, in the order in which they are signed:
/// all but the signature and the confirmation count.
pub open spec fn signed_fields(v: TxView) -> Seq<Seq<char>> {
    seq![v.id, v.pk, v.to, v.amt, v.code, v.nonce, v.fee, v.data]
}

/// The given strings, each in quotes, one after the other.
pub open spec fn quoted_all(fields: Seq<Seq<char>>) -> Seq<char>
    decreases fields.len(),
{
    if fields.len() == 0 {
        Seq::empty()
    } else {
        quoted(fields[0]) + quoted_all(fields.skip(1))
    }
}

/// The canonical payload of a record: the text that is hashed and signed.
pub open spec fn payload(v: TxView) -> Seq<char> {
    quoted_all(signed_fields(v))
}

/// Whether the signature of a record is a valid signature of its sender over
/// its payload.
pub open spec fn signature_valid(v: TxView) -> bool {
    ecdsa_accepts(payload(v), v.pk, v.sig)
}

/// The record `v` with its confirmation count raised by one.
pub open spec fn confirmed(v: TxView) -> TxView {
    TxView { conf: (v.conf + 1) as u32, ..v }
}

pub proof fn lemma_quoted_all_push(fields: Seq<Seq<char>>, s: Seq<char>)
    ensures
        quoted_all(fields.push(s)) == quoted_all(fields) + quoted(s),
    decreases fields.len(),
{
    let all = fields.push(s);
    if fields.len() == 0 {
        assert(all.skip(1) =~= Seq::<Seq<char>>::empty());
        assert(quoted_all(all.skip(1)) =~= Seq::<char>::empty());
        assert(quoted_all(all) =~= quoted(s));
        assert(quoted_all(fields) + quoted(s) =~= quoted(s));
    } else {
        assert(all.skip(1) =~= fields.skip(1).push(s));
        lemma_quoted_all_push(fields.skip(1), s);
        assert(quoted(fields[0]) + (quoted_all(fields.skip(1)) + quoted(s)) =~= (quoted(fields[0])
            + quoted_all(fields.skip(1))) + quoted(s));
    }
}

/// Strings in quotes, written one after the other, can be told apart again:
/// two lists of equal length with the same text are the same list.
pub proof fn lemma_quoted_all_injective(a: Seq<Seq<char>>, b: Seq<Seq<char>>)
    requires
        a.len() == b.len(),
        quoted_all(a) == quoted_all(b),
    ensures
        a == b,
    decreases a.len(),
{
    if a.len() > 0 {
        lemma_parse_quoted(a[0], quoted_all(a.skip(1)));
        lemma_parse_quoted(b[0], quoted_all(b.skip(1)));
        lemma_quoted_all_injective(a.skip(1), b.skip(1));
        assert(a =~= seq![a[0]] + a.skip(1));
        assert(b =~= seq![b[0]] + b.skip(1));
    } else {
        assert(a =~= b);
    }
}

/// Confirming a record changes neither its payload nor whether it is valid.
pub proof fn lemma_confirm_keeps_validity(v: TxView)
    ensures
        payload(confirmed(v)) == payload(v),
        signature_valid(confirmed(v)) == signature_valid(v),
{
    assert(signed_fields(confirmed(v)) =~= signed_fields(v));
}

/// Two records with the same payload agree on every field that is signed.
pub proof fn lemma_payload_injective(a: TxView, b: TxView)
    requires
        payload(a) == payload(b),
    ensures
        a.id == b.id,
        a.pk == b.pk,
        a.to == b.to,
        a.amt == b.amt,
        a.code == b.code,
        a.nonce == b.nonce,
        a.fee == b.fee,
        a.data == b.data,
{
    lemma_quoted_all_injective(signed_fields(a), signed_fields(b));
    let fa = signed_fields(a);
    let fb = signed_fields(b);
    assert(fa[0] == fb[0] && fa[1] == fb[1] && fa[2] == fb[2] && fa[3] == fb[3]);
    assert(fa[4] == fb[4] && fa[5] == fb[5] && fa[6] == fb[6] && fa[7] == fb[7]);
}

/// Why a step of the pipeline did not give a result.
#[derive(Clone, Copy, Debug, PartialEq, Eq, Structural)]
pub enum PipelineError {
    /// The signature of a record does not match its payload and sender.
    SignatureInvalid,
    /// No record is published under the key.
    NotFound,
    /// No sender is left on the channel.
    ChannelClosed,
    /// The confirmed records could not be written.
    IoFailure,
}

/// The hexadecimal digits of `n`, as a string.
fn hex_string(n: u128) -> (s: String)
    ensures
        s@ == hexadecimal(n as nat),
{
    let mut s = String::new();
    push_hexadecimal(&mut s, n);
    assert(Seq::<char>::empty() + hexadecimal(n as nat) =~= hexadecimal(n as nat));
    s
}

impl Tx {
    /// The record of the given fields that is not signed yet: its signature
    /// is empty, and it has not been confirmed.
    pub fn unsigned(
        pk: String,
        id: String,
        to: String,
        amt: String,
        code: String,
        nonce: String,
        fee: String,
        data: String,
    ) -> (tx: Tx)
        ensures
            tx.id == id,
            tx.pk == pk,
            tx.to == to,
            tx.amt == amt,
            tx.code == code,
            tx.nonce == nonce,
            tx.fee == fee,
            tx.data == data,
            tx.sig@ == Seq::<char>::empty(),
            tx.conf == 0,
    {
        Tx { id, pk, to, amt, code, nonce, fee, data, sig: String::new(), conf: 0 }
    }

    /// Puts a signature on the record, where one was made: every other field
    /// stays as it is.
    pub fn seal(self, sig: Option<String>) -> (r: Option<Tx>)
        ensures
            match sig {
                Some(text) => r == Some(Tx { sig: text, ..self }),
                None => r is None,
            },
    {
        match sig {
            Some(text) => {
                let mut tx = self;
                tx.sig = text;
                Some(tx)
            },
            None => None,
        }
    }

    /// Makes a record of the given fields and signs it with the secret key
    /// whose 32 bytes are `secret`: the record's public key is the one that
    /// belongs to `secret`, its signature is over its payload, and it has not
    /// been confirmed. Gives a record exactly when `secret` is a secret key,
    /// and that record is valid.
    pub fn signed(
        secret: &[u8],
        id: String,
        to: String,
        amt: String,
        code: String,
        nonce: String,
        fee: String,
        data: String,
    ) -> (r: Option<Tx>)
        ensures
            r is Some <==> public_key_text(secret@) is Some,
            r matches Some(tx) ==> {
                &&& tx.id == id
                &&& tx.to == to
                &&& tx.amt == amt
                &&& tx.code == code
                &&& tx.nonce == nonce
                &&& tx.fee == fee
                &&& tx.data == data
                &&& tx.conf == 0
                &&& Some(tx.pk@) == public_key_text(secret@)
                &&& signature_valid(tx@)
            },
    {
        match derive_public_key(secret) {
            Some(pk) => {
                let tx = Tx::unsigned(pk, id, to, amt, code, nonce, fee, data);
                let text = tx.get_payload();
                let sig = sign_payload(text.as_str(), secret);
                proof {
                    if sig is Some {
                        assert(signed_fields((Tx { sig: sig->0, ..tx })@) =~= signed_fields(tx@));
                    }
                }
                tx.seal(sig)
            },
            None => None,
        }
    }

    /// The record that the given draws stand for, signed with the secret key
    /// whose 32 bytes are `secret`: the identifier is `id_bits` in 32
    /// hexadecimal digits, the recipient is `0x192` followed by `to_bits` in 32
    /// hexadecimal digits, amount, nonce and fee are written in hexadecimal,
    /// the code is `0` and the data is `None`.
    pub fn drawn(secret: &[u8], id_bits: u128, to_bits: u128, amt: u128, nonce: u32, fee: u8) -> (r:
        Option<Tx>)
        ensures
            r is Some <==> public_key_text(secret@) is Some,
            r matches Some(tx) ==> {
                &&& tx.id@ == hex_padded(id_bits as nat, 32)
                &&& tx.to@ == "0x192"@ + hex_padded(to_bits as nat, 32)
                &&& tx.amt@ == hexadecimal(amt as nat)
                &&& tx.code@ == "0"@
                &&& tx.nonce@ == hexadecimal(nonce as nat)
                &&& tx.fee@ == hexadecimal(fee as nat)
                &&& tx.data@ == "None"@
                &&& tx.conf == 0
                &&& Some(tx.pk@) == public_key_text(secret@)
                &&& signature_valid(tx@)
            },
    {
        let id = uuid_simple(id_bits);
        let mut to = String::from_str("0x192");
        to.append(uuid_simple(to_bits).as_str());
        let code = String::from_str("0");
        let data = String::from_str("None");
        Tx::signed(
            secret,
            id,
            to,
            hex_string(amt as u128),
            code,
            hex_string(nonce as u128),
            hex_string(fee as u128),
            data,
        )
    }

    /// A record with random contents, signed with a fresh key: what `drawn`
    /// makes of a random identifier, recipient, amount, nonce and fee. The
    /// record is valid and has not been confirmed.
    pub fn random() -> (tx: Tx)
        ensures
            signature_valid(tx@),
            tx.conf == 0,
            tx.id@.len() == 32,
            exists|n: nat| tx.id@ == hex_padded(n, 32),
            exists|n: nat| tx.to@ == "0x192"@ + hex_padded(n, 32),
            exists|n: nat| n <= u128::MAX && tx.amt@ == hexadecimal(n),
            exists|n: nat| n <= u32::MAX && tx.nonce@ == hexadecimal(n),
            exists|n: nat| n <= u8::MAX && tx.fee@ == hexadecimal(n),
            tx.code@ == "0"@,
            tx.data@ == "None"@,
    {
        let id_bits = random_u128();
        let secret = generate_secret();
        let to_bits = random_u128();
        let amt = random_u128();
        let nonce = (random_u128() % 0x1_0000_0000) as u32;
        let fee = (random_u128() % 0x100) as u8;
        proof {
            lemma_hex_padded_len(id_bits as nat, 32);
        }
        match Tx::drawn(secret.as_slice(), id_bits, to_bits, amt, nonce, fee) {
            Some(tx) => {
                proof {
                    assert(tx.id@ == hex_padded(id_bits as nat, 32));
                    assert(tx.to@ == "0x192"@ + hex_padded(to_bits as nat, 32));
                    assert(tx.amt@ == hexadecimal(amt as nat));
                    assert(tx.nonce@ == hexadecimal(nonce as nat));
                    assert(tx.fee@ == hexadecimal(fee as nat));
                }
                tx
            },
            None => vstd::pervasive::unreached(),
        }
    }

    /// What the answer to "is the signature accepted" means for a record.
    pub fn verdict(accepted: bool) -> (r: Result<(), PipelineError>)
        ensures
            r == (if accepted {
                Ok::<(), PipelineError>(())
            } else {
                Err::<(), PipelineError>(PipelineError::SignatureInvalid)
            }),
    {
        if accepted {
            Ok(())
        } else {
            Err(PipelineError::SignatureInvalid)
        }
    }

    /// Checks the signature against the payload and the sender's public key,
    /// as the record holds them now. Nothing else is checked.
    pub fn validate(&self) -> (r: Result<(), PipelineError>)
        ensures
            r is Ok <==> signature_valid(self@),
            r is Err ==> r == Err::<(), PipelineError>(PipelineError::SignatureInvalid),
    {
        let text = self.get_payload();
        Tx::verdict(verify_signature(text.as_str(), self.pk.as_str(), self.sig.as_str()))
    }

    /// A copy of the record with its confirmation count raised by one.
    pub fn confirm(&self) -> (tx: Tx)
        requires
            self.conf < u32::MAX,
        ensures
            tx@ == confirmed(self@),
    {
        Tx {
            id: self.id.clone(),
            pk: self.pk.clone(),
            to: self.to.clone(),
            amt: self.amt.clone(),
            code: self.code.clone(),
            nonce: self.nonce.clone(),
            fee: self.fee.clone(),
            data: self.data.clone(),
            sig: self.sig.clone(),
            conf: self.conf + 1,
        }
    }

    /// The payload of the record together with its signature.
    pub fn message(&self) -> (m: TxMessage)
        ensures
            m.msg@ == payload(self@),
            m.sig@ == self.sig@,
    {
        TxMessage { msg: self.get_payload(), sig: self.sig.clone() }
    }

    /// The canonical payload: the eight signed fields, each in quotes, in
    /// their fixed order. The signature and the confirmation count are no part
    /// of it.
    pub fn get_payload(&self) -> (text: String)
        ensures
            text@ == payload(self@),
    {
        let mut out = String::new();
        let ghost mut done: Seq<Seq<char>> = Seq::empty();
        assert(quoted_all(done) =~= out@);
        push_quoted(&mut out, self.id.as_str());
        proof {
            lemma_quoted_all_push(done, self.id@);
            done = done.push(self.id@);
        }
        push_quoted(&mut out, self.pk.as_str());
        proof {
            lemma_quoted_all_push(done, self.pk@);
            done = done.push(self.pk@);
        }
        push_quoted(&mut out, self.to.as_str());
        proof {
            lemma_quoted_all_push(done, self.to@);
            done = done.push(self.to@);
        }
        push_quoted(&mut out, self.amt.as_str());
        proof {
            lemma_quoted_all_push(done, self.amt@);
            done = done.push(self.amt@);
        }
        push_quoted(&mut out, self.code.as_str());
        proof {
            lemma_quoted_all_push(done, self.code@);
            done = done.push(self.code@);
        }
        push_quoted(&mut out, self.nonce.as_str());
        proof {
            lemma_quoted_all_push(done, self.nonce@);
            done = done.push(self.nonce@);
        }
        push_quoted(&mut out, self.fee.as_str());
        proof {
            lemma_quoted_all_push(done, self.fee@);
            done = done.push(self.fee@);
        }
        push_quoted(&mut out, self.data.as_str());
        proof {
            lemma_quoted_all_push(done, self.data@);
            done = done.push(self.data@);
            assert(done =~= signed_fields(self@));
        }
        out
    }
}

} // verus!
