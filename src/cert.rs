use vstd::prelude::*;
use vstd::utf8::encode_utf8;
use crate::holding::{holdings_view, Holding, HoldingView};
use crate::metadata::{content_hash, sha256_of};
use crate::store::KeyedStore;

verus! {

/// `n` as eight big-endian bytes.
pub open spec fn u64_be(n: u64) -> Seq<u8> {
    seq![
        (n >> 56u64) as u8,
        (n >> 48u64) as u8,
        (n >> 40u64) as u8,
        (n >> 32u64) as u8,
        (n >> 24u64) as u8,
        (n >> 16u64) as u8,
        (n >> 8u64) as u8,
        n as u8,
    ]
}

/// A text as its UTF-8 length, then its UTF-8 bytes.
pub open spec fn field_bytes(s: Seq<char>) -> Seq<u8> {
    u64_be(encode_utf8(s).len() as u64) + encode_utf8(s)
}

/// A row as its four fields in order.
pub open spec fn row_bytes(h: HoldingView) -> Seq<u8> {
    field_bytes(h.source) + field_bytes(h.token) + field_bytes(h.amount) + field_bytes(h.status)
}

/// A list of rows, row after row.
pub open spec fn rows_bytes(hs: Seq<HoldingView>) -> Seq<u8>
    decreases hs.len(),
{
    if hs.len() == 0 {
        Seq::empty()
    } else {
        rows_bytes(hs.drop_last()) + row_bytes(hs.last())
    }
}

fn push_field(out: &mut Vec<u8>, s: &String)
    ensures
        final(out)@ == old(out)@ + field_bytes(s@),
{
    let b = s.as_str().as_bytes();
    let n = b.len() as u64;
    out.push((n >> 56u64) as u8);
    out.push((n >> 48u64) as u8);
    out.push((n >> 40u64) as u8);
    out.push((n >> 32u64) as u8);
    out.push((n >> 24u64) as u8);
    out.push((n >> 16u64) as u8);
    out.push((n >> 8u64) as u8);
    out.push(n as u8);
    let ghost head = out@;
    assert(head =~= old(out)@ + u64_be(n));
    let mut i: usize = 0;
    while i < b.len()
        invariant
            i <= b@.len(),
            out@ == head + b@.take(i as int),
        decreases b.len() - i,
    {
        out.push(b[i]);
        i = i + 1;
        assert(out@ =~= head + b@.take(i as int));
    }
    assert(b@.take(b@.len() as int) =~= b@);
    assert(out@ =~= old(out)@ + field_bytes(s@));
}

/// Encodes rows for certification: each row's source, token, amount and
/// status, each as its length and bytes.
pub fn encode_holdings(rows: &Vec<Holding>) -> (r: Vec<u8>)
    ensures
        r@ == rows_bytes(holdings_view(rows@)),
{
    let mut out: Vec<u8> = Vec::new();
    let mut i: usize = 0;
    assert(holdings_view(rows@).take(0) =~= Seq::<HoldingView>::empty());
    while i < rows.len()
        invariant
            i <= rows@.len(),
            out@ == rows_bytes(holdings_view(rows@).take(i as int)),
        decreases rows.len() - i,
    {
        let h = &rows[i];
        push_field(&mut out, &h.source);
        push_field(&mut out, &h.token);
        push_field(&mut out, &h.amount);
        push_field(&mut out, &h.status);
        proof {
            let hv = holdings_view(rows@);
            assert(hv.take(i + 1).drop_last() =~= hv.take(i as int));
            assert(hv.take(i + 1).last() == rows@[i as int]@);
            assert(out@ =~= rows_bytes(hv.take(i as int)) + row_bytes(rows@[i as int]@));
        }
        i = i + 1;
    }
    assert(holdings_view(rows@).take(rows@.len() as int) =~= holdings_view(rows@));
    out
}

/// The witness of a user's rows: the digest of their encoding.
pub open spec fn witness_of(hs: Seq<HoldingView>) -> Seq<u8> {
    sha256_of(rows_bytes(hs))
}

/// Witnesses per user, for certified reads.
pub struct CertStore {
    pub witnesses: KeyedStore<Vec<u8>>,
}

impl CertStore {
    pub open spec fn wf(&self) -> bool {
        self.witnesses.wf()
    }

    pub fn new() -> (r: CertStore)
        ensures
            r.wf(),
            r.witnesses@.dom().len() == 0,
    {
        let r = CertStore { witnesses: KeyedStore::new() };
        assert(r.witnesses@.dom() =~= Set::<Seq<char>>::empty());
        r
    }

    /// Records the witness of `user`'s freshly computed rows.
    pub fn update(&mut self, user: &String, rows: &Vec<Holding>)
        requires
            old(self).wf(),
        ensures
            final(self).wf(),
            final(self).witnesses@.contains_key(user@),
            final(self).witnesses@[user@]@ == witness_of(holdings_view(rows@)),
            forall|u: Seq<char>|
                u != user@ ==> (#[trigger] final(self).witnesses@.contains_key(u) == old(
                    self,
                ).witnesses@.contains_key(u) && (final(self).witnesses@.contains_key(u)
                    ==> final(self).witnesses@[u] == old(self).witnesses@[u])),
    {
        let w = content_hash(&encode_holdings(rows));
        self.witnesses.insert(user.clone(), w);
    }

    /// The witness of `user`: empty where none was recorded.
    pub fn witness(&self, user: &String) -> (r: Vec<u8>)
        requires
            self.wf(),
        ensures
            self.witnesses@.contains_key(user@) ==> r@ == self.witnesses@[user@]@,
            !self.witnesses@.contains_key(user@) ==> r@.len() == 0,
    {
        match self.witnesses.get(user) {
            Some(w) => crate::metadata::copy_bytes(w),
            None => Vec::new(),
        }
    }
}

} // verus!
