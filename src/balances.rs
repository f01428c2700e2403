//! Account balances and the binary ledger encoding under which they are
//! stored.
//!
//! A ledger is stored as its number of entries, as 8 little-endian bytes,
//! followed by its entries in order. Each entry is the byte length of the
//! account's UTF-8 text as 8 little-endian bytes, that text, and the amount
//! as 16 little-endian bytes. The empty ledger is eight zero bytes. No
//! ledger's encoding is a proper prefix of another's, so a truncated or
//! extended encoding never decodes.

use vstd::bytes::*;
use vstd::prelude::*;
use vstd::slice::*;
use vstd::utf8::*;

verus! {

broadcast use encode_utf8_valid_utf8, encode_utf8_decode_utf8;

/// The storage key under which the ledger is kept; the key is its bytes.
pub const BALANCES: &'static str = "balances";

/// One account's holding.
#[derive(Debug, Default)]
pub struct Balance {
    pub account: String,
    pub amount: u128,
}

/// An ordered list of holdings; the order is kept by the encoding, and an
/// account may appear more than once.
#[derive(Debug, Default)]
pub struct Balances(pub Vec<Balance>);

/// A byte string that is not the encoding of any ledger.
#[derive(Clone, Copy, Debug, PartialEq, Eq, Structural)]
pub struct DecodeError;

/// The model of an entry: the account's characters and the amount.
pub type BalanceView = (Seq<char>, u128);

impl View for Balance {
    type V = BalanceView;

    open spec fn view(&self) -> BalanceView {
        (self.account@, self.amount)
    }
}

impl View for Balances {
    type V = Seq<BalanceView>;

    open spec fn view(&self) -> Seq<BalanceView> {
        self.0@.map_values(|b: Balance| b@)
    }
}

/// The encoding of one entry.
pub open spec fn entry_bytes(e: BalanceView) -> Seq<u8> {
    spec_u64_to_le_bytes(encode_utf8(e.0).len() as u64) + encode_utf8(e.0)
        + spec_u128_to_le_bytes(e.1)
}

/// The entries' encodings, in order.
pub open spec fn entries_bytes(l: Seq<BalanceView>) -> Seq<u8>
    decreases l.len(),
{
    if l.len() == 0 {
        Seq::empty()
    } else {
        entry_bytes(l[0]) + entries_bytes(l.drop_first())
    }
}

/// The encoding of a ledger: the number of entries, then the entries.
pub open spec fn ledger_bytes(l: Seq<BalanceView>) -> Seq<u8> {
    spec_u64_to_le_bytes(l.len() as u64) + entries_bytes(l)
}

/// Reads exactly `k` entries that take up all of `b`; `None` where the bytes
/// are not in the format.
spec fn parse_entries(b: Seq<u8>, k: nat) -> Option<Seq<BalanceView>>
    decreases k,
{
    if k == 0 {
        if b.len() == 0 {
            Some(Seq::empty())
        } else {
            None
        }
    } else if b.len() < 8 {
        None
    } else {
        let n = spec_u64_from_le_bytes(b.subrange(0, 8)) as int;
        if b.len() < n + 24 {
            None
        } else {
            let text = b.subrange(8, 8 + n);
            if !valid_utf8(text) {
                None
            } else {
                let e = (decode_utf8(text), spec_u128_from_le_bytes(b.subrange(8 + n, 24 + n)));
                match parse_entries(b.subrange(24 + n, b.len() as int), (k - 1) as nat) {
                    Some(rest) => Some(seq![e] + rest),
                    None => None,
                }
            }
        }
    }
}

/// Reads a whole ledger: its count, then that many entries, then nothing.
spec fn parse_ledger(b: Seq<u8>) -> Option<Seq<BalanceView>> {
    if b.len() < 8 {
        None
    } else {
        parse_entries(b.subrange(8, b.len() as int), spec_u64_from_le_bytes(b.subrange(0, 8)) as nat)
    }
}

/// Every account of the ledger has a UTF-8 text whose length fits in 8 bytes.
pub open spec fn ledger_fits(l: Seq<BalanceView>) -> bool {
    forall|i: int| 0 <= i < l.len() ==> encode_utf8(#[trigger] l[i].0).len() <= u64::MAX
}

proof fn lemma_fits_drop_first(l: Seq<BalanceView>)
    requires
        ledger_fits(l),
        l.len() > 0,
    ensures
        ledger_fits(l.drop_first()),
{
    assert forall|i: int| 0 <= i < l.drop_first().len() implies encode_utf8(
        #[trigger] l.drop_first()[i].0,
    ).len() <= u64::MAX by {
        assert(l.drop_first()[i] == l[i + 1]);
    }
}

proof fn lemma_parse_encoded(l: Seq<BalanceView>)
    requires
        ledger_fits(l),
    ensures
        parse_entries(entries_bytes(l), l.len()) == Some(l),
    decreases l.len(),
{
    lemma_auto_spec_u64_to_from_le_bytes();
    lemma_auto_spec_u128_to_from_le_bytes();
    if l.len() > 0 {
        let b = entries_bytes(l);
        let e = l[0];
        let t = encode_utf8(e.0);
        let n = t.len() as int;
        let len_bytes = spec_u64_to_le_bytes(n as u64);
        let amt = spec_u128_to_le_bytes(e.1);
        let rest = entries_bytes(l.drop_first());
        assert(b == len_bytes + t + amt + rest);
        assert(b.subrange(0, 8) == len_bytes);
        assert(b.subrange(8, 8 + n) == t);
        assert(b.subrange(8 + n, 24 + n) == amt);
        assert(b.subrange(24 + n, b.len() as int) == rest);
        lemma_fits_drop_first(l);
        lemma_parse_encoded(l.drop_first());
        assert(seq![e] + l.drop_first() == l);
    }
}

proof fn lemma_parsed_is_encoded(b: Seq<u8>, k: nat)
    requires
        parse_entries(b, k) is Some,
    ensures
        entries_bytes(parse_entries(b, k)->Some_0) == b,
        parse_entries(b, k)->Some_0.len() == k,
    decreases k,
{
    lemma_auto_spec_u64_to_from_le_bytes();
    lemma_auto_spec_u128_to_from_le_bytes();
    if k > 0 {
        let n = spec_u64_from_le_bytes(b.subrange(0, 8)) as int;
        let text = b.subrange(8, 8 + n);
        decode_utf8_encode_utf8(text);
        let e = (decode_utf8(text), spec_u128_from_le_bytes(b.subrange(8 + n, 24 + n)));
        let tail = b.subrange(24 + n, b.len() as int);
        lemma_parsed_is_encoded(tail, (k - 1) as nat);
        let l = parse_entries(b, k)->Some_0;
        assert(l == seq![e] + parse_entries(tail, (k - 1) as nat)->Some_0);
        assert(l.drop_first() == parse_entries(tail, (k - 1) as nat)->Some_0);
        assert(b.subrange(0, 8) == spec_u64_to_le_bytes(n as u64));
        assert(b == b.subrange(0, 8) + text + b.subrange(8 + n, 24 + n) + tail);
    }
}

proof fn lemma_entries_bytes_len(l: Seq<BalanceView>)
    ensures
        entries_bytes(l).len() >= 24 * l.len(),
        forall|i: int|
            0 <= i < l.len() ==> encode_utf8(#[trigger] l[i].0).len() < entries_bytes(l).len(),
    decreases l.len(),
{
    lemma_auto_spec_u64_to_from_le_bytes();
    lemma_auto_spec_u128_to_from_le_bytes();
    if l.len() > 0 {
        lemma_entries_bytes_len(l.drop_first());
        assert forall|i: int| 0 <= i < l.len() implies encode_utf8(#[trigger] l[i].0).len()
            < entries_bytes(l).len() by {
            if i > 0 {
                assert(l.drop_first()[i - 1] == l[i]);
            }
        }
    }
}

/// A ledger whose encoding fits in memory has a count and account lengths
/// that fit in their 8-byte fields.
proof fn lemma_small_ledger_fits(l: Seq<BalanceView>)
    requires
        ledger_bytes(l).len() <= u64::MAX,
    ensures
        ledger_fits(l),
        l.len() <= u64::MAX,
{
    lemma_entries_bytes_len(l);
}

proof fn lemma_ledger_parses(l: Seq<BalanceView>)
    requires
        ledger_bytes(l).len() <= u64::MAX,
    ensures
        parse_ledger(ledger_bytes(l)) == Some(l),
{
    lemma_auto_spec_u64_to_from_le_bytes();
    lemma_small_ledger_fits(l);
    lemma_parse_encoded(l);
    let b = ledger_bytes(l);
    assert(b.subrange(0, 8) == spec_u64_to_le_bytes(l.len() as u64));
    assert(b.subrange(8, b.len() as int) == entries_bytes(l));
}

/// Entry lists of the same length, where one's encoding starts the other's,
/// are equal.
proof fn lemma_entries_prefix(l: Seq<BalanceView>, m: Seq<BalanceView>)
    requires
        ledger_fits(l),
        ledger_fits(m),
        l.len() == m.len(),
        entries_bytes(l).is_prefix_of(entries_bytes(m)),
    ensures
        l == m,
    decreases l.len(),
{
    lemma_auto_spec_u64_to_from_le_bytes();
    lemma_auto_spec_u128_to_from_le_bytes();
    if l.len() > 0 {
        let bl = entries_bytes(l);
        let bm = entries_bytes(m);
        let tl = encode_utf8(l[0].0);
        let tm = encode_utf8(m[0].0);
        let nl = tl.len() as int;
        let nm = tm.len() as int;
        assert(bl == spec_u64_to_le_bytes(nl as u64) + tl + spec_u128_to_le_bytes(l[0].1)
            + entries_bytes(l.drop_first()));
        assert(bm == spec_u64_to_le_bytes(nm as u64) + tm + spec_u128_to_le_bytes(m[0].1)
            + entries_bytes(m.drop_first()));
        assert(bl.subrange(0, 8) == spec_u64_to_le_bytes(nl as u64));
        assert(bm.subrange(0, 8) == spec_u64_to_le_bytes(nm as u64));
        assert(bl.subrange(0, 8) == bm.subrange(0, 8));
        assert(nl == nm);
        assert(bl.subrange(8, 8 + nl) == tl);
        assert(bm.subrange(8, 8 + nm) == tm);
        assert(bl.subrange(8, 8 + nl) == bm.subrange(8, 8 + nl));
        assert(decode_utf8(tl) == decode_utf8(tm));
        assert(bl.subrange(8 + nl, 24 + nl) == spec_u128_to_le_bytes(l[0].1));
        assert(bm.subrange(8 + nl, 24 + nl) == spec_u128_to_le_bytes(m[0].1));
        assert(bl.subrange(8 + nl, 24 + nl) == bm.subrange(8 + nl, 24 + nl));
        assert(l[0] == m[0]);
        let rl = entries_bytes(l.drop_first());
        let rm = entries_bytes(m.drop_first());
        assert(rl == bl.subrange(24 + nl, bl.len() as int));
        assert(rm == bm.subrange(24 + nl, bm.len() as int));
        assert(rl.is_prefix_of(rm)) by {
            assert(rl =~= rm.subrange(0, rl.len() as int));
        }
        lemma_fits_drop_first(l);
        lemma_fits_drop_first(m);
        lemma_entries_prefix(l.drop_first(), m.drop_first());
        assert(l == seq![l[0]] + l.drop_first());
        assert(m == seq![m[0]] + m.drop_first());
    }
}

/// No ledger's encoding is a proper prefix of another's: where one ledger's
/// encoding starts the encoding of a ledger that fits in memory, the two
/// ledgers are the same. So a truncated or extended encoding is no encoding,
/// and `try_from_binary` rejects it.
pub proof fn ledger_prefix_free(l: Seq<BalanceView>, m: Seq<BalanceView>)
    requires
        ledger_bytes(m).len() <= u64::MAX,
        ledger_bytes(l).is_prefix_of(ledger_bytes(m)),
    ensures
        l == m,
{
    lemma_auto_spec_u64_to_from_le_bytes();
    lemma_small_ledger_fits(l);
    lemma_small_ledger_fits(m);
    let bl = ledger_bytes(l);
    let bm = ledger_bytes(m);
    assert(bl.subrange(0, 8) == spec_u64_to_le_bytes(l.len() as u64));
    assert(bm.subrange(0, 8) == spec_u64_to_le_bytes(m.len() as u64));
    assert(bl.subrange(0, 8) == bm.subrange(0, 8));
    assert(l.len() == m.len());
    let el = entries_bytes(l);
    let em = entries_bytes(m);
    assert(el == bl.subrange(8, bl.len() as int));
    assert(em == bm.subrange(8, bm.len() as int));
    assert(el.is_prefix_of(em)) by {
        assert(el =~= em.subrange(0, el.len() as int));
    }
    lemma_entries_prefix(l, m);
}

/// The encoding is injective: two ledgers whose encodings fit in memory and
/// are equal are the same ledger. So decoding what `to_binary` produced gives
/// back the ledger that was encoded.
pub proof fn ledger_round_trip(l: Seq<BalanceView>, m: Seq<BalanceView>)
    requires
        ledger_bytes(l).len() <= u64::MAX,
        ledger_bytes(m) == ledger_bytes(l),
    ensures
        m == l,
{
    ledger_prefix_free(m, l);
}

proof fn lemma_entries_bytes_concat(a: Seq<BalanceView>, b: Seq<BalanceView>)
    ensures
        entries_bytes(a + b) == entries_bytes(a) + entries_bytes(b),
    decreases a.len(),
{
    if a.len() == 0 {
        assert(a + b == b);
    } else {
        lemma_entries_bytes_concat(a.drop_first(), b);
        assert((a + b).drop_first() == a.drop_first() + b);
    }
}

proof fn lemma_entries_bytes_push(l: Seq<BalanceView>, e: BalanceView)
    ensures
        entries_bytes(l.push(e)) == entries_bytes(l) + entry_bytes(e),
{
    lemma_entries_bytes_concat(l, seq![e]);
    assert(l.push(e) == l + seq![e]);
    assert(entries_bytes(seq![e]) == entry_bytes(e) + entries_bytes(seq![e].drop_first()));
    assert(seq![e].drop_first().len() == 0);
}

/// The entries read so far, followed by what the rest of the bytes hold.
spec fn after(read: Seq<BalanceView>, rest: Option<Seq<BalanceView>>) -> Option<Seq<BalanceView>> {
    match rest {
        Some(t) => Some(read + t),
        None => None,
    }
}

proof fn lemma_no_ledger(b: Seq<u8>)
    requires
        parse_ledger(b) is None,
        b.len() <= u64::MAX,
    ensures
        forall|m: Seq<BalanceView>| ledger_bytes(m) != b,
{
    assert forall|m: Seq<BalanceView>| ledger_bytes(m) != b by {
        if ledger_bytes(m) == b {
            lemma_ledger_parses(m);
        }
    }
}

/// Relies on std::str::from_utf8: it succeeds exactly on valid UTF-8, and the
/// text it returns has those bytes.
#[verifier::external_body]
fn utf8_text<'a>(bytes: &'a [u8]) -> (r: Option<&'a str>)
    ensures
        match r {
            Some(s) => encode_utf8(s@) == bytes@,
            None => !valid_utf8(bytes@),
        },
{
    std::str::from_utf8(bytes).ok()
}

impl Balances {
    /// Encodes the ledger for storage.
    pub fn to_binary(&self) -> (r: Vec<u8>)
        ensures
            r@ == ledger_bytes(self@),
    {
        let mut out: Vec<u8> = u64_to_le_bytes(self.0.len() as u64);
        let ghost count = out@;
        let mut i: usize = 0;
        while i < self.0.len()
            invariant
                i <= self.0@.len(),
                count == spec_u64_to_le_bytes(self@.len() as u64),
                out@ == count + entries_bytes(self@.subrange(0, i as int)),
            decreases self.0@.len() - i,
        {
            let b = &self.0[i];
            let text = b.account.as_str().as_bytes();
            let mut len_bytes = u64_to_le_bytes(text.len() as u64);
            let mut text_bytes = slice_to_vec(text);
            let mut amount_bytes = u128_to_le_bytes(b.amount);
            out.append(&mut len_bytes);
            out.append(&mut text_bytes);
            out.append(&mut amount_bytes);
            proof {
                lemma_entries_bytes_push(self@.subrange(0, i as int), self@[i as int]);
                assert(self@.subrange(0, i + 1) == self@.subrange(0, i as int).push(
                    self@[i as int],
                ));
            }
            i = i + 1;
        }
        proof {
            assert(self@.subrange(0, self@.len() as int) == self@);
        }
        out
    }

    /// Decodes a stored ledger. Succeeds exactly on the encodings of ledgers,
    /// and then gives the ledger so encoded; a truncated or extended encoding
    /// is rejected.
    pub fn try_from_binary(bin_data: &[u8]) -> (r: Result<Balances, DecodeError>)
        ensures
            match r {
                Ok(l) => ledger_bytes(l@) == bin_data@,
                Err(_) => forall|m: Seq<BalanceView>| ledger_bytes(m) != bin_data@,
            },
    {
        let len = bin_data.len();
        let ghost b = bin_data@;
        if len < 8 {
            proof { lemma_no_ledger(b); }
            return Err(DecodeError);
        }
        let count = u64_from_le_bytes(slice_subrange(bin_data, 0, 8));
        let mut pos: usize = 8;
        let mut i: u64 = 0;
        let mut out: Vec<Balance> = Vec::new();
        proof {
            if parse_ledger(b) is Some {
                assert(Seq::<BalanceView>::empty() + parse_ledger(b)->Some_0
                    == parse_ledger(b)->Some_0);
            }
        }
        while i < count
            invariant
                8 <= pos <= len,
                len == b.len(),
                b == bin_data@,
                len <= u64::MAX,
                i <= count,
                count == spec_u64_from_le_bytes(b.subrange(0, 8)),
                parse_ledger(b) == after(
                    out@.map_values(|x: Balance| x@),
                    parse_entries(b.subrange(pos as int, len as int), (count - i) as nat),
                ),
            decreases count - i,
        {
            let ghost rest = b.subrange(pos as int, len as int);
            if len - pos < 8 {
                proof { lemma_no_ledger(b); }
                return Err(DecodeError);
            }
            let n = u64_from_le_bytes(slice_subrange(bin_data, pos, pos + 8));
            assert(rest.subrange(0, 8) == b.subrange(pos as int, pos + 8));
            let room = len - pos - 8;
            if room < 16 || n > (room - 16) as u64 {
                proof { lemma_no_ledger(b); }
                return Err(DecodeError);
            }
            let n = n as usize;
            let text = slice_subrange(bin_data, pos + 8, pos + 8 + n);
            assert(rest.subrange(8, 8 + n) == text@);
            let account = match utf8_text(text) {
                Some(s) => s.to_owned(),
                None => {
                    proof { lemma_no_ledger(b); }
                    return Err(DecodeError);
                },
            };
            let amount = u128_from_le_bytes(slice_subrange(bin_data, pos + 8 + n, pos + 24 + n));
            assert(rest.subrange(8 + n, 24 + n) == b.subrange(pos + 8 + n, pos + 24 + n));
            assert(rest.subrange(24 + n, rest.len() as int) == b.subrange(
                pos + 24 + n,
                len as int,
            ));
            let ghost read = out@.map_values(|x: Balance| x@);
            let ghost e = (account@, amount);
            proof {
                decode_utf8_encode_utf8(text@);
                assert(account@ == decode_utf8(text@));
            }
            out.push(Balance { account, amount });
            proof {
                assert(out@.map_values(|x: Balance| x@) == read.push(e));
                let t = parse_entries(b.subrange(pos + 24 + n, len as int), (count - i - 1) as nat);
                if t is Some {
                    assert(read + (seq![e] + t->Some_0) == read.push(e) + t->Some_0);
                }
            }
            pos = pos + 24 + n;
            i = i + 1;
        }
        if pos != len {
            proof { lemma_no_ledger(b); }
            return Err(DecodeError);
        }
        proof {
            let read = out@.map_values(|x: Balance| x@);
            assert(b.subrange(len as int, len as int).len() == 0);
            assert(read + Seq::<BalanceView>::empty() == read);
            lemma_parsed_is_encoded(b.subrange(8, len as int), count as nat);
            lemma_auto_spec_u64_to_from_le_bytes();
            assert(b == b.subrange(0, 8) + b.subrange(8, len as int));
        }
        Ok(Balances(out))
    }
}

} // verus!
