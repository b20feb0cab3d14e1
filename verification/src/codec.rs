//! The wire codec of the query protocol.
//!
//! A message is one line: tokens separated by a space, the line closed by a
//! newline at the transport. String content is escaped so that no token ever
//! holds a space or newline; numbers travel as decimal digits. Every message
//! kind has a spec-level encoder and parser, proved inverse to each other,
//! and executable functions proved against those specs.

use vstd::prelude::*;
use vstd::utf8::{
    decode_utf8, encode_utf8, encode_utf8_decode_utf8, encode_utf8_valid_utf8, valid_utf8,
};
use crate::bytes::{
    lemma_deep_view_elts, lemma_split_byte_clean, lemma_split_byte_step, split_at_byte,
    split_byte,
};
use crate::protocol::{
    FileV, InstallLocation, LocV, MetaV, PluginMetadata, ReqV, Request, RespV, ResponseCode,
    UpdateFile, UpdateRequestOptions, UpdateResponse,
};

verus! {

// ---------------------------------------------------------------------------
// Escaping: backslash 0x5c introduces a pair; space and newline never appear
// in an escaped token.
// ---------------------------------------------------------------------------

pub open spec fn esc_byte(b: u8) -> Seq<u8> {
    if b == 0x5c {
        seq![0x5c, 0x5c]
    } else if b == 0x20 {
        seq![0x5c, 0x73]
    } else if b == 0x0a {
        seq![0x5c, 0x6e]
    } else {
        seq![b]
    }
}

pub open spec fn esc(s: Seq<u8>) -> Seq<u8>
    decreases s.len(),
{
    if s.len() == 0 {
        seq![]
    } else {
        esc_byte(s[0]) + esc(s.drop_first())
    }
}

pub open spec fn unesc(s: Seq<u8>) -> Option<Seq<u8>>
    decreases s.len(),
{
    if s.len() == 0 {
        Some(seq![])
    } else if s[0] == 0x5c {
        if s.len() < 2 {
            None
        } else {
            let d: Option<u8> = if s[1] == 0x5c {
                Some(0x5c)
            } else if s[1] == 0x73 {
                Some(0x20)
            } else if s[1] == 0x6e {
                Some(0x0a)
            } else {
                None
            };
            match (d, unesc(s.skip(2))) {
                (Some(x), Some(r)) => Some(seq![x] + r),
                _ => None,
            }
        }
    } else {
        match unesc(s.drop_first()) {
            Some(r) => Some(seq![s[0]] + r),
            None => None,
        }
    }
}

/// A token that may sit between separators: no space, no newline.
pub open spec fn sep_clean(t: Seq<u8>) -> bool {
    forall|i: int| 0 <= i < t.len() ==> #[trigger] t[i] != 0x20 && t[i] != 0x0a
}

pub proof fn lemma_esc_clean(s: Seq<u8>)
    ensures
        sep_clean(esc(s)),
    decreases s.len(),
{
    if s.len() > 0 {
        lemma_esc_clean(s.drop_first());
    }
}

pub proof fn lemma_esc_snoc(a: Seq<u8>, x: u8)
    ensures
        esc(a.push(x)) == esc(a) + esc_byte(x),
    decreases a.len(),
{
    if a.len() == 0 {
        assert(a.push(x)[0] == x);
        assert(a.push(x).drop_first() =~= Seq::<u8>::empty());
        assert(esc(Seq::<u8>::empty()) =~= Seq::<u8>::empty());
        assert(esc(a.push(x)) =~= esc_byte(x));
        assert(esc(a) + esc_byte(x) =~= esc_byte(x));
    } else {
        assert(a.push(x).drop_first() =~= a.drop_first().push(x));
        assert(a.push(x)[0] == a[0]);
        lemma_esc_snoc(a.drop_first(), x);
        assert(esc(a.push(x)) =~= esc(a) + esc_byte(x));
    }
}

/// Unescaping inverts escaping.
pub proof fn lemma_unesc_esc(s: Seq<u8>)
    ensures
        unesc(esc(s)) == Some(s),
    decreases s.len(),
{
    if s.len() > 0 {
        let e = esc(s);
        lemma_unesc_esc(s.drop_first());
        if s[0] == 0x5c || s[0] == 0x20 || s[0] == 0x0a {
            assert(e.skip(2) =~= esc(s.drop_first()));
            assert(seq![s[0]] + s.drop_first() =~= s);
        } else {
            assert(e.drop_first() =~= esc(s.drop_first()));
            assert(seq![s[0]] + s.drop_first() =~= s);
        }
    }
}

fn esc_exec(s: &Vec<u8>) -> (r: Vec<u8>)
    ensures
        r@ == esc(s@),
{
    let n = s.len();
    let mut out: Vec<u8> = Vec::new();
    let mut i: usize = 0;
    proof {
        assert(out@ =~= esc(s@.take(0)));
    }
    while i < n
        invariant
            n == s.len(),
            i <= n,
            out@ == esc(s@.take(i as int)),
        decreases n - i,
    {
        let ghost pre = s@.take(i as int);
        let c = s[i];
        proof {
            assert(s@.take(i as int + 1) =~= pre.push(c));
            lemma_esc_snoc(pre, c);
        }
        if c == 0x5c {
            out.push(0x5c);
            out.push(0x5c);
        } else if c == 0x20 {
            out.push(0x5c);
            out.push(0x73);
        } else if c == 0x0a {
            out.push(0x5c);
            out.push(0x6e);
        } else {
            out.push(c);
        }
        proof {
            assert(out@ =~= esc(pre) + esc_byte(c));
        }
        i += 1;
    }
    proof {
        assert(s@.take(n as int) =~= s@);
    }
    out
}

fn unesc_exec(s: &Vec<u8>) -> (r: Option<Vec<u8>>)
    ensures
        match r {
            Some(v) => unesc(s@) == Some(v@),
            None => unesc(s@) is None,
        },
{
    let n = s.len();
    let mut out: Vec<u8> = Vec::new();
    let mut i: usize = 0;
    proof {
        assert(s@.skip(0) =~= s@);
        match unesc(s@) {
            Some(r2) => {
                assert(out@ + r2 =~= r2);
            },
            None => {},
        }
    }
    while i < n
        invariant
            n == s.len(),
            i <= n,
            unesc(s@) == (match unesc(s@.skip(i as int)) {
                Some(rest) => Some(out@ + rest),
                None => None::<Seq<u8>>,
            }),
        decreases n - i,
    {
        let ghost rest = s@.skip(i as int);
        let c = s[i];
        if c == 0x5c {
            if i + 1 >= n {
                proof {
                    assert(rest[0] == 0x5c);
                    assert(rest.len() == 1);
                }
                return None;
            }
            let d = s[i + 1];
            let x: u8 = if d == 0x5c {
                0x5c
            } else if d == 0x73 {
                0x20
            } else if d == 0x6e {
                0x0a
            } else {
                proof {
                    assert(rest[0] == 0x5c);
                    assert(rest[1] == d);
                }
                return None;
            };
            let ghost old_out = out@;
            out.push(x);
            proof {
                assert(rest[0] == 0x5c);
                assert(rest[1] == d);
                assert(rest.skip(2) =~= s@.skip(i as int + 2));
                match unesc(s@.skip(i as int + 2)) {
                    Some(r2) => {
                        assert(old_out + (seq![x] + r2) =~= out@ + r2);
                    },
                    None => {},
                }
            }
            i += 2;
        } else {
            let ghost old_out = out@;
            out.push(c);
            proof {
                assert(rest[0] == c);
                assert(rest.drop_first() =~= s@.skip(i as int + 1));
                match unesc(s@.skip(i as int + 1)) {
                    Some(r2) => {
                        assert(old_out + (seq![c] + r2) =~= out@ + r2);
                    },
                    None => {},
                }
            }
            i += 1;
        }
    }
    proof {
        assert(s@.skip(n as int) =~= Seq::<u8>::empty());
        assert(out@ + Seq::<u8>::empty() =~= out@);
    }
    Some(out)
}

// ---------------------------------------------------------------------------
// Decimal tokens for unsigned numbers.
// ---------------------------------------------------------------------------

pub open spec fn dec_digits(n: nat) -> Seq<u8>
    decreases n,
{
    if n < 10 {
        seq![(0x30 + n) as u8]
    } else {
        dec_digits(n / 10) + seq![(0x30 + n % 10) as u8]
    }
}

pub open spec fn dec_val(s: Seq<u8>) -> nat
    decreases s.len(),
{
    if s.len() == 0 {
        0
    } else {
        dec_val(s.drop_last()) * 10 + (s.last() - 0x30) as nat
    }
}

pub open spec fn is_dec_token(s: Seq<u8>) -> bool {
    &&& s.len() > 0
    &&& forall|i: int| 0 <= i < s.len() ==> crate::version::is_digit(#[trigger] s[i])
    &&& (s[0] != 0x30 || s.len() == 1)
}

pub open spec fn parse_u64(s: Seq<u8>) -> Option<u64> {
    if is_dec_token(s) && dec_val(s) <= u64::MAX {
        Some(dec_val(s) as u64)
    } else {
        None
    }
}

pub proof fn lemma_dec_digits_form(n: nat)
    ensures
        is_dec_token(dec_digits(n)),
        dec_val(dec_digits(n)) == n,
        sep_clean(dec_digits(n)),
        n > 0 ==> dec_digits(n)[0] != 0x30,
    decreases n,
{
    if n < 10 {
        let s = dec_digits(n);
        assert(s.len() == 1);
        assert(s.drop_last() =~= Seq::<u8>::empty());
        assert(dec_val(Seq::<u8>::empty()) == 0);
        assert(((0x30 + n) as u8) as int == 0x30 + n);
        assert(dec_val(s) == (s.last() - 0x30) as nat);
    } else {
        lemma_dec_digits_form(n / 10);
        let p = dec_digits(n / 10);
        let s = dec_digits(n);
        assert(s.drop_last() =~= p);
        assert(s.last() == (0x30 + n % 10) as u8);
        assert(((0x30 + n % 10) as u8) as int == 0x30 + n % 10);
        assert(n / 10 >= 1);
        assert(s[0] == p[0]);
        vstd::arithmetic::div_mod::lemma_fundamental_div_mod(n as int, 10);
        assert(dec_val(s) == dec_val(p) * 10 + (s.last() - 0x30) as nat);
        assert forall|i: int| 0 <= i < s.len() implies crate::version::is_digit(
            #[trigger] s[i],
        ) by {
            if i < p.len() {
                assert(s[i] == p[i]);
            }
        }
    }
}

/// Parsing inverts printing, for any value a `u64` can hold.
pub proof fn lemma_parse_dec(n: u64)
    ensures
        parse_u64(dec_digits(n as nat)) == Some(n),
{
    lemma_dec_digits_form(n as nat);
}

/// A digit extension never shrinks the value.
proof fn lemma_dec_val_mono(s: Seq<u8>, i: int)
    requires
        0 <= i <= s.len(),
        forall|j: int| 0 <= j < s.len() ==> crate::version::is_digit(#[trigger] s[j]),
    ensures
        dec_val(s.take(i)) <= dec_val(s),
    decreases s.len() - i,
{
    if i < s.len() {
        lemma_dec_val_mono(s, i + 1);
        assert(s.take(i + 1).drop_last() =~= s.take(i));
        assert(dec_val(s.take(i + 1)) == dec_val(s.take(i)) * 10 + (s[i] - 0x30) as nat);
    } else {
        assert(s.take(i) =~= s);
    }
}

fn push_dec(out: &mut Vec<u8>, n: u64)
    ensures
        final(out)@ == old(out)@ + dec_digits(n as nat),
    decreases n,
{
    if n < 10 {
        out.push(0x30 + n as u8);
        proof {
            assert(out@ =~= old(out)@ + dec_digits(n as nat));
        }
    } else {
        push_dec(out, n / 10);
        out.push(0x30 + (n % 10) as u8);
        proof {
            assert(out@ =~= old(out)@ + dec_digits(n as nat));
        }
    }
}

fn dec_exec(n: u64) -> (r: Vec<u8>)
    ensures
        r@ == dec_digits(n as nat),
{
    let mut out: Vec<u8> = Vec::new();
    push_dec(&mut out, n);
    proof {
        assert(Seq::<u8>::empty() + dec_digits(n as nat) =~= dec_digits(n as nat));
    }
    out
}

fn parse_u64_exec(s: &Vec<u8>) -> (r: Option<u64>)
    ensures
        r == parse_u64(s@),
{
    let n = s.len();
    if n == 0 {
        return None;
    }
    if s[0] == 0x30 && n > 1 {
        return None;
    }
    let mut acc: u64 = 0;
    let mut i: usize = 0;
    proof {
        assert(dec_val(s@.take(0)) == 0);
    }
    while i < n
        invariant
            n == s.len(),
            0 < n,
            i <= n,
            s@[0] != 0x30 || n == 1,
            forall|j: int| 0 <= j < i ==> crate::version::is_digit(#[trigger] s@[j]),
            acc == dec_val(s@.take(i as int)),
        decreases n - i,
    {
        let c = s[i];
        if c < 0x30 || c > 0x39 {
            return None;
        }
        let d = (c - 0x30) as u64;
        proof {
            assert(s@.take(i as int + 1).drop_last() =~= s@.take(i as int));
            assert(dec_val(s@.take(i as int + 1)) == dec_val(s@.take(i as int)) * 10 + (s@[
                i as int] - 0x30) as nat);
        }
        if acc > (u64::MAX - d) / 10 {
            proof {
                let m = u64::MAX as int;
                vstd::arithmetic::div_mod::lemma_fundamental_div_mod(m - d, 10);
                assert(acc * 10 + d > m);
                if is_dec_token(s@) {
                    lemma_dec_val_mono(s@, i as int + 1);
                    assert(dec_val(s@) > u64::MAX);
                }
            }
            return None;
        }
        proof {
            let m = u64::MAX as int;
            vstd::arithmetic::div_mod::lemma_fundamental_div_mod(m - d, 10);
            assert(acc * 10 + d <= m);
        }
        acc = acc * 10 + d;
        i += 1;
    }
    proof {
        assert(s@.take(n as int) =~= s@);
        assert(is_dec_token(s@));
    }
    Some(acc)
}

// ---------------------------------------------------------------------------
// Joining tokens into a line.
// ---------------------------------------------------------------------------

pub open spec fn join(ts: Seq<Seq<u8>>) -> Seq<u8>
    decreases ts.len(),
{
    if ts.len() == 0 {
        seq![]
    } else if ts.len() == 1 {
        ts[0]
    } else {
        ts[0] + seq![0x20] + join(ts.drop_first())
    }
}

pub open spec fn all_clean(ts: Seq<Seq<u8>>) -> bool {
    forall|i: int| 0 <= i < ts.len() ==> sep_clean(#[trigger] ts[i])
}

pub proof fn lemma_join_concat(a: Seq<Seq<u8>>, b: Seq<Seq<u8>>)
    requires
        a.len() >= 1,
        b.len() >= 1,
    ensures
        join(a + b) == join(a) + seq![0x20] + join(b),
    decreases a.len(),
{
    if a.len() == 1 {
        assert((a + b).drop_first() =~= b);
        assert((a + b)[0] == a[0]);
        assert(join(a + b) =~= join(a) + seq![0x20] + join(b));
    } else {
        assert((a + b).drop_first() =~= a.drop_first() + b);
        assert((a + b)[0] == a[0]);
        lemma_join_concat(a.drop_first(), b);
        assert(join(a + b) =~= join(a) + seq![0x20] + join(b));
    }
}

/// Splitting a joined line recovers the tokens, provided every token is
/// clean and the line does not end in an empty token.
pub proof fn lemma_split_join(ts: Seq<Seq<u8>>)
    requires
        ts.len() >= 1,
        all_clean(ts),
        ts.last().len() > 0,
    ensures
        split_byte(join(ts), 0x20) == ts,
    decreases ts.len(),
{
    if ts.len() == 1 {
        lemma_split_byte_clean(ts[0], 0x20);
        assert(seq![ts[0]] =~= ts);
    } else {
        assert(sep_clean(ts[0]));
        lemma_split_byte_step(ts[0], join(ts.drop_first()), 0x20);
        assert(ts[0] + seq![0x20u8] + join(ts.drop_first()) =~= join(ts));
        assert(ts.drop_first().last() == ts.last());
        lemma_split_join(ts.drop_first());
        assert(seq![ts[0]] + ts.drop_first() =~= ts);
    }
}

fn append_bytes(out: &mut Vec<u8>, s: &Vec<u8>)
    ensures
        final(out)@ == old(out)@ + s@,
{
    let n = s.len();
    let mut i: usize = 0;
    proof {
        assert(out@ =~= old(out)@ + s@.take(0));
    }
    while i < n
        invariant
            n == s.len(),
            i <= n,
            out@ == old(out)@ + s@.take(i as int),
        decreases n - i,
    {
        out.push(s[i]);
        proof {
            assert(old(out)@ + s@.take(i as int + 1) =~= (old(out)@ + s@.take(i as int)).push(
                s@[i as int]));
        }
        i += 1;
    }
    proof {
        assert(s@.take(n as int) =~= s@);
    }
}

fn join_tokens(ts: &Vec<Vec<u8>>) -> (r: Vec<u8>)
    requires
        ts@.len() >= 1,
    ensures
        r@ == join(ts.deep_view()),
{
    proof {
        lemma_deep_view_elts(ts);
    }
    let mut out: Vec<u8> = Vec::new();
    append_bytes(&mut out, &ts[0]);
    proof {
        assert(out@ =~= join(ts.deep_view().take(1)));
    }
    let n = ts.len();
    let mut k: usize = 1;
    while k < n
        invariant
            n == ts.len(),
            1 <= k <= n,
            ts.deep_view().len() == n,
            forall|j: int| 0 <= j < n ==> #[trigger] ts.deep_view()[j] == ts@[j]@,
            out@ == join(ts.deep_view().take(k as int)),
        decreases n - k,
    {
        out.push(0x20);
        append_bytes(&mut out, &ts[k]);
        proof {
            let d = ts.deep_view();
            assert(d.take(k as int + 1) =~= d.take(k as int) + seq![d[k as int]]);
            lemma_join_concat(d.take(k as int), seq![d[k as int]]);
            assert(join(seq![d[k as int]]) == d[k as int]);
            assert(out@ =~= join(d.take(k as int)) + seq![0x20u8] + d[k as int]);
        }
        k += 1;
    }
    proof {
        assert(ts.deep_view().take(n as int) =~= ts.deep_view());
    }
    out
}

// ---------------------------------------------------------------------------
// Tokens for each field kind. Each kind has an encoder, a parser that
// inverts it, and an executable form proved against them.
// ---------------------------------------------------------------------------

pub open spec fn tok_str(s: Seq<char>) -> Seq<u8> {
    esc(encode_utf8(s))
}

pub open spec fn untok_str(t: Seq<u8>) -> Option<Seq<char>> {
    match unesc(t) {
        Some(bs) => if valid_utf8(bs) {
            Some(decode_utf8(bs))
        } else {
            None
        },
        None => None,
    }
}

pub proof fn lemma_tok_str(s: Seq<char>)
    ensures
        untok_str(tok_str(s)) == Some(s),
        sep_clean(tok_str(s)),
{
    lemma_unesc_esc(encode_utf8(s));
    lemma_esc_clean(encode_utf8(s));
    encode_utf8_valid_utf8(s);
    encode_utf8_decode_utf8(s);
}

fn tok_str_exec(s: &String) -> (r: Vec<u8>)
    ensures
        r@ == tok_str(s@),
{
    let bs = s.as_str().as_bytes_vec();
    esc_exec(&bs)
}

/// Relies on `String::from_utf8`: it succeeds exactly on UTF-8 byte
/// content, and the resulting string's bytes are the input.
#[verifier::external_body]
fn bytes_to_string(v: Vec<u8>) -> (r: Option<String>)
    ensures
        match r {
            Some(s) => valid_utf8(v@) && encode_utf8(s@) == v@,
            None => !valid_utf8(v@),
        },
{
    match String::from_utf8(v) {
        Ok(s) => Some(s),
        Err(_) => None,
    }
}

fn untok_str_exec(t: &Vec<u8>) -> (r: Option<String>)
    ensures
        match r {
            Some(s) => untok_str(t@) == Some(s@),
            None => untok_str(t@) is None,
        },
{
    match unesc_exec(t) {
        None => None,
        Some(bs) => {
            let ghost bsv = bs@;
            match bytes_to_string(bs) {
                None => None,
                Some(s) => {
                    proof {
                        encode_utf8_decode_utf8(s@);
                    }
                    Some(s)
                },
            }
        },
    }
}

pub open spec fn tok_bool(b: bool) -> Seq<u8> {
    if b {
        seq![0x31]
    } else {
        seq![0x30]
    }
}

pub open spec fn untok_bool(t: Seq<u8>) -> Option<bool> {
    if t == seq![0x31u8] {
        Some(true)
    } else if t == seq![0x30u8] {
        Some(false)
    } else {
        None
    }
}

pub proof fn lemma_tok_bool(b: bool)
    ensures
        untok_bool(tok_bool(b)) == Some(b),
        sep_clean(tok_bool(b)),
        tok_bool(b).len() > 0,
{
    assert(seq![0x31u8][0] == 0x31u8);
    assert(seq![0x30u8][0] == 0x30u8);
}

fn untok_bool_exec(t: &Vec<u8>) -> (r: Option<bool>)
    ensures
        r == untok_bool(t@),
{
    if t.len() == 1 && t[0] == 0x31 {
        proof {
            assert(t@ =~= seq![0x31u8]);
        }
        Some(true)
    } else if t.len() == 1 && t[0] == 0x30 {
        proof {
            assert(t@ =~= seq![0x30u8]);
        }
        Some(false)
    } else {
        None
    }
}

fn tok_bool_exec(b: bool) -> (r: Vec<u8>)
    ensures
        r@ == tok_bool(b),
{
    let mut t: Vec<u8> = Vec::new();
    if b {
        t.push(0x31);
        proof {
            assert(t@ =~= seq![0x31u8]);
        }
    } else {
        t.push(0x30);
        proof {
            assert(t@ =~= seq![0x30u8]);
        }
    }
    t
}

pub open spec fn tok_opt_bool(b: Option<bool>) -> Seq<u8> {
    match b {
        None => seq![0x2d],
        Some(true) => seq![0x2b, 0x31],
        Some(false) => seq![0x2b, 0x30],
    }
}

pub open spec fn untok_opt_bool(t: Seq<u8>) -> Option<Option<bool>> {
    if t == seq![0x2du8] {
        Some(None)
    } else if t == seq![0x2bu8, 0x31u8] {
        Some(Some(true))
    } else if t == seq![0x2bu8, 0x30u8] {
        Some(Some(false))
    } else {
        None
    }
}

pub proof fn lemma_tok_opt_bool(b: Option<bool>)
    ensures
        untok_opt_bool(tok_opt_bool(b)) == Some(b),
        sep_clean(tok_opt_bool(b)),
        tok_opt_bool(b).len() > 0,
{
}

fn untok_opt_bool_exec(t: &Vec<u8>) -> (r: Option<Option<bool>>)
    ensures
        r == untok_opt_bool(t@),
{
    if t.len() == 1 && t[0] == 0x2d {
        proof {
            assert(t@ =~= seq![0x2du8]);
        }
        Some(None)
    } else if t.len() == 2 && t[0] == 0x2b && t[1] == 0x31 {
        proof {
            assert(t@ =~= seq![0x2bu8, 0x31u8]);
        }
        Some(Some(true))
    } else if t.len() == 2 && t[0] == 0x2b && t[1] == 0x30 {
        proof {
            assert(t@ =~= seq![0x2bu8, 0x30u8]);
        }
        Some(Some(false))
    } else {
        None
    }
}

fn tok_opt_bool_exec(b: &Option<bool>) -> (r: Vec<u8>)
    ensures
        r@ == tok_opt_bool(*b),
{
    let mut t: Vec<u8> = Vec::new();
    match b {
        None => {
            t.push(0x2d);
            proof {
                assert(t@ =~= seq![0x2du8]);
            }
        },
        Some(x) => {
            t.push(0x2b);
            if *x {
                t.push(0x31);
                proof {
                    assert(t@ =~= seq![0x2bu8, 0x31u8]);
                }
            } else {
                t.push(0x30);
                proof {
                    assert(t@ =~= seq![0x2bu8, 0x30u8]);
                }
            }
        },
    }
    t
}

/// Token of an optional unit payload: present or absent, nothing more.
pub open spec fn tok_opt_unit(h: bool) -> Seq<u8> {
    if h {
        seq![0x2b]
    } else {
        seq![0x2d]
    }
}

pub open spec fn untok_opt_unit(t: Seq<u8>) -> Option<bool> {
    if t == seq![0x2bu8] {
        Some(true)
    } else if t == seq![0x2du8] {
        Some(false)
    } else {
        None
    }
}

pub proof fn lemma_tok_opt_unit(h: bool)
    ensures
        untok_opt_unit(tok_opt_unit(h)) == Some(h),
        sep_clean(tok_opt_unit(h)),
        tok_opt_unit(h).len() > 0,
{
    assert(seq![0x2bu8][0] == 0x2bu8);
    assert(seq![0x2du8][0] == 0x2du8);
}

fn untok_opt_unit_exec(t: &Vec<u8>) -> (r: Option<bool>)
    ensures
        r == untok_opt_unit(t@),
{
    if t.len() == 1 && t[0] == 0x2b {
        proof {
            assert(t@ =~= seq![0x2bu8]);
        }
        Some(true)
    } else if t.len() == 1 && t[0] == 0x2d {
        proof {
            assert(t@ =~= seq![0x2du8]);
        }
        Some(false)
    } else {
        None
    }
}

fn tok_opt_unit_exec(h: bool) -> (r: Vec<u8>)
    ensures
        r@ == tok_opt_unit(h),
{
    let mut t: Vec<u8> = Vec::new();
    if h {
        t.push(0x2b);
        proof {
            assert(t@ =~= seq![0x2bu8]);
        }
    } else {
        t.push(0x2d);
        proof {
            assert(t@ =~= seq![0x2du8]);
        }
    }
    t
}

pub open spec fn tok_code(c: ResponseCode) -> Seq<u8> {
    match c {
        ResponseCode::NoUpdate => seq![0x6e],
        ResponseCode::Update => seq![0x75],
        ResponseCode::PluginNotFound => seq![0x70],
        ResponseCode::InvalidRequest => seq![0x69],
    }
}

pub open spec fn untok_code(t: Seq<u8>) -> Option<ResponseCode> {
    if t == seq![0x6eu8] {
        Some(ResponseCode::NoUpdate)
    } else if t == seq![0x75u8] {
        Some(ResponseCode::Update)
    } else if t == seq![0x70u8] {
        Some(ResponseCode::PluginNotFound)
    } else if t == seq![0x69u8] {
        Some(ResponseCode::InvalidRequest)
    } else {
        None
    }
}

pub proof fn lemma_tok_code(c: ResponseCode)
    ensures
        untok_code(tok_code(c)) == Some(c),
        sep_clean(tok_code(c)),
        tok_code(c).len() > 0,
{
    assert(seq![0x6eu8][0] == 0x6eu8);
    assert(seq![0x75u8][0] == 0x75u8);
    assert(seq![0x70u8][0] == 0x70u8);
    assert(seq![0x69u8][0] == 0x69u8);
}

fn untok_code_exec(t: &Vec<u8>) -> (r: Option<ResponseCode>)
    ensures
        r == untok_code(t@),
{
    if t.len() != 1 {
        return None;
    }
    let c = t[0];
    if c == 0x6e {
        proof {
            assert(t@ =~= seq![0x6eu8]);
        }
        Some(ResponseCode::NoUpdate)
    } else if c == 0x75 {
        proof {
            assert(t@ =~= seq![0x75u8]);
        }
        Some(ResponseCode::Update)
    } else if c == 0x70 {
        proof {
            assert(t@ =~= seq![0x70u8]);
        }
        Some(ResponseCode::PluginNotFound)
    } else if c == 0x69 {
        proof {
            assert(t@ =~= seq![0x69u8]);
        }
        Some(ResponseCode::InvalidRequest)
    } else {
        None
    }
}

fn tok_code_exec(c: ResponseCode) -> (r: Vec<u8>)
    ensures
        r@ == tok_code(c),
{
    let mut t: Vec<u8> = Vec::new();
    match c {
        ResponseCode::NoUpdate => t.push(0x6e),
        ResponseCode::Update => t.push(0x75),
        ResponseCode::PluginNotFound => t.push(0x70),
        ResponseCode::InvalidRequest => t.push(0x69),
    }
    proof {
        assert(t@ =~= tok_code(c));
    }
    t
}

pub open spec fn tok_opt_str(s: Option<Seq<char>>) -> Seq<u8> {
    match s {
        None => seq![0x2d],
        Some(x) => seq![0x2b] + tok_str(x),
    }
}

pub open spec fn untok_opt_str(t: Seq<u8>) -> Option<Option<Seq<char>>> {
    if t == seq![0x2du8] {
        Some(None)
    } else if t.len() >= 1 && t[0] == 0x2b {
        match untok_str(t.skip(1)) {
            Some(s) => Some(Some(s)),
            None => None,
        }
    } else {
        None
    }
}

pub proof fn lemma_tok_opt_str(s: Option<Seq<char>>)
    ensures
        untok_opt_str(tok_opt_str(s)) == Some(s),
        sep_clean(tok_opt_str(s)),
        tok_opt_str(s).len() > 0,
{
    match s {
        None => {},
        Some(x) => {
            let t = tok_opt_str(s);
            assert(t[0] == 0x2b);
            assert(t.skip(1) =~= tok_str(x));
            lemma_tok_str(x);
        },
    }
}

fn tok_opt_str_exec(s: &Option<String>) -> (r: Vec<u8>)
    ensures
        r@ == tok_opt_str(match s {
            Some(x) => Some(x@),
            None => None,
        }),
{
    match s {
        None => {
            let mut t: Vec<u8> = Vec::new();
            t.push(0x2d);
            proof {
                assert(t@ =~= seq![0x2du8]);
            }
            t
        },
        Some(x) => {
            let mut t: Vec<u8> = Vec::new();
            t.push(0x2b);
            let e = tok_str_exec(x);
            append_bytes(&mut t, &e);
            proof {
                assert(t@ =~= seq![0x2bu8] + tok_str(x@));
            }
            t
        },
    }
}

/// Copy of `t` from position `from` on.
fn tail_from(t: &Vec<u8>, from: usize) -> (r: Vec<u8>)
    requires
        from <= t@.len(),
    ensures
        r@ == t@.skip(from as int),
{
    let n = t.len();
    let mut out: Vec<u8> = Vec::new();
    let mut i: usize = from;
    while i < n
        invariant
            n == t.len(),
            from <= i <= n,
            out@ == t@.subrange(from as int, i as int),
        decreases n - i,
    {
        out.push(t[i]);
        proof {
            assert(t@.subrange(from as int, i as int + 1) =~= t@.subrange(
                from as int,
                i as int,
            ).push(t@[i as int]));
        }
        i += 1;
    }
    proof {
        assert(t@.subrange(from as int, n as int) =~= t@.skip(from as int));
    }
    out
}

fn untok_opt_str_exec(t: &Vec<u8>) -> (r: Option<Option<String>>)
    ensures
        match r {
            Some(Some(s)) => untok_opt_str(t@) == Some(Some(s@)),
            Some(None) => untok_opt_str(t@) == Some(None::<Seq<char>>),
            None => untok_opt_str(t@) is None,
        },
{
    if t.len() == 1 && t[0] == 0x2d {
        proof {
            assert(t@ =~= seq![0x2du8]);
        }
        Some(None)
    } else if t.len() >= 1 && t[0] == 0x2b {
        let rest = tail_from(t, 1);
        match untok_str_exec(&rest) {
            Some(s) => Some(Some(s)),
            None => None,
        }
    } else {
        None
    }
}

pub open spec fn tok_loc(l: LocV) -> Seq<u8> {
    match l {
        LocV::Path(p) => seq![0x70] + tok_str(p),
        LocV::Unknown => seq![0x3f],
    }
}

/// Reading an install location never fails: an encoding the decoder does
/// not recognize becomes the explicit `Unknown`.
pub open spec fn untok_loc(t: Seq<u8>) -> LocV {
    if t.len() >= 1 && t[0] == 0x70 {
        match untok_str(t.skip(1)) {
            Some(p) => LocV::Path(p),
            None => LocV::Unknown,
        }
    } else {
        LocV::Unknown
    }
}

pub proof fn lemma_tok_loc(l: LocV)
    ensures
        untok_loc(tok_loc(l)) == l,
        sep_clean(tok_loc(l)),
        tok_loc(l).len() > 0,
{
    match l {
        LocV::Unknown => {},
        LocV::Path(p) => {
            let t = tok_loc(l);
            assert(t[0] == 0x70);
            assert(t.skip(1) =~= tok_str(p));
            lemma_tok_str(p);
        },
    }
}

fn tok_loc_exec(l: &InstallLocation) -> (r: Vec<u8>)
    ensures
        r@ == tok_loc(l@),
{
    match l {
        InstallLocation::AbsolutePath(p) => {
            let mut t: Vec<u8> = Vec::new();
            t.push(0x70);
            let e = tok_str_exec(p);
            append_bytes(&mut t, &e);
            proof {
                assert(t@ =~= seq![0x70u8] + tok_str(p@));
            }
            t
        },
        InstallLocation::Unknown => {
            let mut t: Vec<u8> = Vec::new();
            t.push(0x3f);
            proof {
                assert(t@ =~= seq![0x3fu8]);
            }
            t
        },
    }
}

fn untok_loc_exec(t: &Vec<u8>) -> (r: InstallLocation)
    ensures
        r@ == untok_loc(t@),
{
    if t.len() >= 1 && t[0] == 0x70 {
        let rest = tail_from(t, 1);
        match untok_str_exec(&rest) {
            Some(p) => InstallLocation::AbsolutePath(p),
            None => InstallLocation::Unknown,
        }
    } else {
        InstallLocation::Unknown
    }
}

// ---------------------------------------------------------------------------
// Request messages.
// ---------------------------------------------------------------------------

pub open spec fn req_tokens(r: ReqV) -> Seq<Seq<u8>> {
    match r {
        ReqV::Update { plugin_name, plugin_version, beta, has_options } => seq![
            seq![0x75u8],
            tok_str(plugin_name),
            tok_str(plugin_version),
            tok_opt_bool(beta),
            tok_opt_unit(has_options),
        ],
        ReqV::Metadata { plugin_name, beta } => seq![
            seq![0x6du8],
            tok_str(plugin_name),
            tok_opt_bool(beta),
        ],
    }
}

pub open spec fn encode_request_spec(r: ReqV) -> Seq<u8> {
    join(req_tokens(r))
}

pub open spec fn parse_req_tokens(ts: Seq<Seq<u8>>) -> Option<ReqV> {
    if ts.len() == 5 && ts[0] == seq![0x75u8] {
        match untok_str(ts[1]) {
            None => None,
            Some(pn) => match untok_str(ts[2]) {
                None => None,
                Some(pv) => match untok_opt_bool(ts[3]) {
                    None => None,
                    Some(b) => match untok_opt_unit(ts[4]) {
                        None => None,
                        Some(h) => Some(ReqV::Update {
                            plugin_name: pn,
                            plugin_version: pv,
                            beta: b,
                            has_options: h,
                        }),
                    },
                },
            },
        }
    } else if ts.len() == 3 && ts[0] == seq![0x6du8] {
        match untok_str(ts[1]) {
            None => None,
            Some(pn) => match untok_opt_bool(ts[2]) {
                None => None,
                Some(b) => Some(ReqV::Metadata { plugin_name: pn, beta: b }),
            },
        }
    } else {
        None
    }
}

pub open spec fn decode_request_spec(b: Seq<u8>) -> Option<ReqV> {
    parse_req_tokens(split_byte(b, 0x20))
}

/// Decoding inverts encoding for every request.
pub proof fn lemma_request_round_trip(r: ReqV)
    ensures
        decode_request_spec(encode_request_spec(r)) == Some(r),
{
    let ts = req_tokens(r);
    assert(seq![0x75u8][0] == 0x75u8);
    assert(seq![0x6du8][0] == 0x6du8);
    match r {
        ReqV::Update { plugin_name, plugin_version, beta, has_options } => {
            lemma_tok_str(plugin_name);
            lemma_tok_str(plugin_version);
            lemma_tok_opt_bool(beta);
            lemma_tok_opt_unit(has_options);
            assert forall|i: int| 0 <= i < ts.len() implies sep_clean(#[trigger] ts[i]) by {
                if i == 0 {
                    assert(ts[0] =~= seq![0x75u8]);
                }
            }
            assert(ts.last() == tok_opt_unit(has_options));
            lemma_split_join(ts);
        },
        ReqV::Metadata { plugin_name, beta } => {
            lemma_tok_str(plugin_name);
            lemma_tok_opt_bool(beta);
            assert forall|i: int| 0 <= i < ts.len() implies sep_clean(#[trigger] ts[i]) by {
                if i == 0 {
                    assert(ts[0] =~= seq![0x6du8]);
                }
            }
            assert(ts.last() == tok_opt_bool(beta));
            lemma_split_join(ts);
        },
    }
}

/// Encode a request as one query-port line (without the closing newline).
pub fn encode_request(r: &Request) -> (out: Vec<u8>)
    ensures
        out@ == encode_request_spec(r@),
{
    let mut ts: Vec<Vec<u8>> = Vec::new();
    match r {
        Request::Update { plugin_name, plugin_version, beta, options } => {
            let mut tag: Vec<u8> = Vec::new();
            tag.push(0x75);
            proof {
                assert(tag@ =~= seq![0x75u8]);
            }
            ts.push(tag);
            ts.push(tok_str_exec(plugin_name));
            ts.push(tok_str_exec(plugin_version));
            ts.push(tok_opt_bool_exec(beta));
            let h = match options {
                Some(_) => true,
                None => false,
            };
            ts.push(tok_opt_unit_exec(h));
            proof {
                lemma_deep_view_elts(&ts);
                assert(ts.deep_view() =~= req_tokens(r@));
            }
        },
        Request::Metadata { plugin_name, beta } => {
            let mut tag: Vec<u8> = Vec::new();
            tag.push(0x6d);
            proof {
                assert(tag@ =~= seq![0x6du8]);
            }
            ts.push(tag);
            ts.push(tok_str_exec(plugin_name));
            ts.push(tok_opt_bool_exec(beta));
            proof {
                lemma_deep_view_elts(&ts);
                assert(ts.deep_view() =~= req_tokens(r@));
            }
        },
    }
    join_tokens(&ts)
}

/// Decode one query-port line into a request, if it parses.
pub fn decode_request(line: &Vec<u8>) -> (r: Option<Request>)
    ensures
        match r {
            Some(req) => decode_request_spec(line@) == Some(req@),
            None => decode_request_spec(line@) is None,
        },
{
    let ts = split_at_byte(line, 0x20);
    proof {
        lemma_deep_view_elts(&ts);
    }
    let ghost tsd = ts.deep_view();
    if ts.len() == 5 && ts[0].len() == 1 && ts[0][0] == 0x75 {
        proof {
            assert(tsd[0] =~= seq![0x75u8]);
        }
        let pn = match untok_str_exec(&ts[1]) {
            Some(x) => x,
            None => {
                return None;
            },
        };
        let pv = match untok_str_exec(&ts[2]) {
            Some(x) => x,
            None => {
                return None;
            },
        };
        let b = match untok_opt_bool_exec(&ts[3]) {
            Some(x) => x,
            None => {
                return None;
            },
        };
        let h = match untok_opt_unit_exec(&ts[4]) {
            Some(x) => x,
            None => {
                return None;
            },
        };
        let req = Request::Update {
            plugin_name: pn,
            plugin_version: pv,
            beta: b,
            options: if h {
                Some(UpdateRequestOptions {})
            } else {
                None
            },
        };
        Some(req)
    } else if ts.len() == 3 && ts[0].len() == 1 && ts[0][0] == 0x6d {
        proof {
            assert(tsd[0] =~= seq![0x6du8]);
        }
        let pn = match untok_str_exec(&ts[1]) {
            Some(x) => x,
            None => {
                return None;
            },
        };
        let b = match untok_opt_bool_exec(&ts[2]) {
            Some(x) => x,
            None => {
                return None;
            },
        };
        Some(Request::Metadata { plugin_name: pn, beta: b })
    } else {
        proof {
            if tsd.len() == 5 && tsd[0] == seq![0x75u8] {
                assert(ts@[0]@.len() == 1 && ts@[0]@[0] == 0x75);
            }
            if tsd.len() == 3 && tsd[0] == seq![0x6du8] {
                assert(ts@[0]@.len() == 1 && ts@[0]@[0] == 0x6d);
            }
        }
        None
    }
}

// ---------------------------------------------------------------------------
// Response messages.
// ---------------------------------------------------------------------------

pub open spec fn file_tokens(f: FileV) -> Seq<Seq<u8>> {
    seq![
        tok_loc(f.install_location),
        dec_digits(f.download_index as nat),
        dec_digits(f.size as nat),
    ]
}

pub open spec fn files_tokens(fs: Seq<FileV>) -> Seq<Seq<u8>>
    decreases fs.len(),
{
    if fs.len() == 0 {
        seq![]
    } else {
        file_tokens(fs[0]) + files_tokens(fs.drop_first())
    }
}

pub proof fn lemma_files_tokens_form(fs: Seq<FileV>)
    ensures
        files_tokens(fs).len() == 3 * fs.len(),
        all_clean(files_tokens(fs)),
        fs.len() > 0 ==> files_tokens(fs).last().len() > 0,
    decreases fs.len(),
{
    if fs.len() > 0 {
        lemma_files_tokens_form(fs.drop_first());
        lemma_tok_loc(fs[0].install_location);
        lemma_dec_digits_form(fs[0].download_index as nat);
        lemma_dec_digits_form(fs[0].size as nat);
        let w = files_tokens(fs);
        let h = file_tokens(fs[0]);
        let t = files_tokens(fs.drop_first());
        assert forall|i: int| 0 <= i < w.len() implies sep_clean(#[trigger] w[i]) by {
            if i < 3 {
                assert(w[i] == h[i]);
            } else {
                assert(w[i] == t[i - 3]);
            }
        }
        if fs.len() == 1 {
            assert(w.last() == h[2]);
        } else {
            assert(w.last() == t.last());
        }
    }
}

pub proof fn lemma_files_tokens_snoc(fs: Seq<FileV>, f: FileV)
    ensures
        files_tokens(fs.push(f)) == files_tokens(fs) + file_tokens(f),
    decreases fs.len(),
{
    if fs.len() == 0 {
        assert(fs.push(f)[0] == f);
        assert(fs.push(f).drop_first() =~= Seq::<FileV>::empty());
        assert(files_tokens(Seq::<FileV>::empty()) =~= Seq::<Seq<u8>>::empty());
        assert(files_tokens(fs.push(f)) =~= files_tokens(fs) + file_tokens(f));
    } else {
        assert(fs.push(f)[0] == fs[0]);
        assert(fs.push(f).drop_first() =~= fs.drop_first().push(f));
        lemma_files_tokens_snoc(fs.drop_first(), f);
        assert(files_tokens(fs.push(f)) =~= files_tokens(fs) + file_tokens(f));
    }
}

pub open spec fn head_resp_tokens(r: RespV) -> Seq<Seq<u8>> {
    seq![
        seq![0x72u8],
        tok_code(r.code),
        tok_bool(r.update_plugin),
        tok_bool(r.update_skyline),
        tok_str(r.plugin_name),
        tok_str(r.new_plugin_version),
        tok_opt_str(r.new_skyline_version),
        dec_digits(r.required_files.len()),
    ]
}

pub open spec fn resp_tokens(r: RespV) -> Seq<Seq<u8>> {
    head_resp_tokens(r) + files_tokens(r.required_files)
}

pub open spec fn encode_response_spec(r: RespV) -> Seq<u8> {
    join(resp_tokens(r))
}

pub open spec fn parse_files(ts: Seq<Seq<u8>>, i: int, n: nat) -> Option<Seq<FileV>>
    decreases n,
{
    if n == 0 {
        Some(seq![])
    } else if i < 0 || i + 3 > ts.len() {
        None
    } else {
        let loc = untok_loc(ts[i]);
        match parse_u64(ts[i + 1]) {
            None => None,
            Some(idx) => match parse_u64(ts[i + 2]) {
                None => None,
                Some(sz) => if sz <= usize::MAX as u64 {
                    match parse_files(ts, i + 3, (n - 1) as nat) {
                        Some(rest) => Some(
                            seq![
                                FileV {
                                    install_location: loc,
                                    download_index: idx,
                                    size: sz as usize,
                                },
                            ] + rest,
                        ),
                        None => None,
                    }
                } else {
                    None
                },
            },
        }
    }
}

pub open spec fn parse_resp_tokens(ts: Seq<Seq<u8>>) -> Option<RespV> {
    if ts.len() >= 8 && ts[0] == seq![0x72u8] {
        match untok_code(ts[1]) {
            None => None,
            Some(code) => match untok_bool(ts[2]) {
                None => None,
                Some(up) => match untok_bool(ts[3]) {
                    None => None,
                    Some(us) => match untok_str(ts[4]) {
                        None => None,
                        Some(pn) => match untok_str(ts[5]) {
                            None => None,
                            Some(nv) => match untok_opt_str(ts[6]) {
                                None => None,
                                Some(ns) => match parse_u64(ts[7]) {
                                    None => None,
                                    Some(cnt) => if ts.len() == 8 + 3 * (cnt as int) {
                                        match parse_files(ts, 8, cnt as nat) {
                                            Some(fs) => Some(RespV {
                                                code,
                                                update_plugin: up,
                                                update_skyline: us,
                                                plugin_name: pn,
                                                new_plugin_version: nv,
                                                new_skyline_version: ns,
                                                required_files: fs,
                                            }),
                                            None => None,
                                        }
                                    } else {
                                        None
                                    },
                                },
                            },
                        },
                    },
                },
            },
        }
    } else {
        None
    }
}

pub open spec fn decode_response_spec(b: Seq<u8>) -> Option<RespV> {
    parse_resp_tokens(split_byte(b, 0x20))
}

pub proof fn lemma_parse_files_round(ts: Seq<Seq<u8>>, i: int, fs: Seq<FileV>)
    requires
        0 <= i,
        i + 3 * fs.len() <= ts.len(),
        ts.subrange(i, i + 3 * fs.len()) == files_tokens(fs),
    ensures
        parse_files(ts, i, fs.len() as nat) == Some(fs),
    decreases fs.len(),
{
    if fs.len() > 0 {
        lemma_files_tokens_form(fs.drop_first());
        let sub = ts.subrange(i, i + 3 * fs.len());
        let h = file_tokens(fs[0]);
        assert(ts[i] == sub[0]);
        assert(ts[i + 1] == sub[1]);
        assert(ts[i + 2] == sub[2]);
        assert(sub[0] == h[0]);
        assert(sub[1] == h[1]);
        assert(sub[2] == h[2]);
        lemma_tok_loc(fs[0].install_location);
        lemma_parse_dec(fs[0].download_index);
        lemma_parse_dec(fs[0].size as u64);
        assert(ts.subrange(i + 3, i + 3 + 3 * fs.drop_first().len()) =~= sub.subrange(
            3,
            sub.len() as int,
        ));
        assert(sub.subrange(3, sub.len() as int) =~= files_tokens(fs.drop_first()));
        lemma_parse_files_round(ts, i + 3, fs.drop_first());
        let f0 = FileV {
            install_location: untok_loc(ts[i]),
            download_index: fs[0].download_index,
            size: fs[0].size,
        };
        assert(f0 =~= fs[0]);
        assert(seq![fs[0]] + fs.drop_first() =~= fs);
    }
}

/// Decoding inverts encoding for every response whose file list a real
/// vector can hold.
pub proof fn lemma_response_round_trip(r: RespV)
    requires
        r.required_files.len() <= u64::MAX,
    ensures
        decode_response_spec(encode_response_spec(r)) == Some(r),
{
    let ts = resp_tokens(r);
    let hd = head_resp_tokens(r);
    let ft = files_tokens(r.required_files);
    assert(seq![0x72u8][0] == 0x72u8);
    lemma_tok_code(r.code);
    lemma_tok_bool(r.update_plugin);
    lemma_tok_bool(r.update_skyline);
    lemma_tok_str(r.plugin_name);
    lemma_tok_str(r.new_plugin_version);
    lemma_tok_opt_str(r.new_skyline_version);
    lemma_dec_digits_form(r.required_files.len());
    lemma_parse_dec(r.required_files.len() as u64);
    lemma_files_tokens_form(r.required_files);
    assert forall|i: int| 0 <= i < ts.len() implies sep_clean(#[trigger] ts[i]) by {
        if i < 8 {
            assert(ts[i] == hd[i]);
            if i == 0 {
                assert(ts[0] =~= seq![0x72u8]);
            }
        } else {
            assert(ts[i] == ft[i - 8]);
        }
    }
    if r.required_files.len() == 0 {
        assert(ts.last() == hd[7]);
    } else {
        assert(ts.last() == ft.last());
    }
    lemma_split_join(ts);
    assert(ts[1] == hd[1]);
    assert(ts[2] == hd[2]);
    assert(ts[3] == hd[3]);
    assert(ts[4] == hd[4]);
    assert(ts[5] == hd[5]);
    assert(ts[6] == hd[6]);
    assert(ts[7] == hd[7]);
    assert(dec_digits(r.required_files.len()) == dec_digits(
        (r.required_files.len() as u64) as nat,
    ));
    assert(ts.subrange(8, 8 + 3 * r.required_files.len() as int) =~= ft);
    lemma_parse_files_round(ts, 8, r.required_files);
    let parsed = parse_resp_tokens(ts);
    assert(parsed matches Some(p) && p =~~= r);
}

/// Encode a response as one query-port line (without the closing newline).
pub fn encode_response(r: &UpdateResponse) -> (out: Vec<u8>)
    ensures
        out@ == encode_response_spec(r@),
{
    let mut ts: Vec<Vec<u8>> = Vec::new();
    let mut tag: Vec<u8> = Vec::new();
    tag.push(0x72);
    proof {
        assert(tag@ =~= seq![0x72u8]);
    }
    ts.push(tag);
    ts.push(tok_code_exec(r.code));
    ts.push(tok_bool_exec(r.update_plugin));
    ts.push(tok_bool_exec(r.update_skyline));
    ts.push(tok_str_exec(&r.plugin_name));
    ts.push(tok_str_exec(&r.new_plugin_version));
    ts.push(tok_opt_str_exec(&r.new_skyline_version));
    ts.push(dec_exec(r.required_files.len() as u64));
    proof {
        lemma_deep_view_elts(&ts);
        assert(r@.required_files.len() == r.required_files@.len());
        assert(ts.deep_view() =~= head_resp_tokens(r@));
        assert(r@.required_files.take(0) =~= Seq::<FileV>::empty());
        assert(files_tokens(Seq::<FileV>::empty()) =~= Seq::<Seq<u8>>::empty());
        assert(ts.deep_view() =~= head_resp_tokens(r@) + files_tokens(r@.required_files.take(0)));
    }
    let n = r.required_files.len();
    let mut k: usize = 0;
    while k < n
        invariant
            n == r.required_files.len(),
            k <= n,
            r@.required_files.len() == n,
            forall|j: int|
                0 <= j < n ==> #[trigger] r@.required_files[j] == r.required_files@[j]@,
            ts.deep_view() == head_resp_tokens(r@) + files_tokens(r@.required_files.take(k as int)),
            ts@.len() >= 1,
        decreases n - k,
    {
        let ghost fv = r@.required_files[k as int];
        let f = &r.required_files[k];
        let t1 = tok_loc_exec(&f.install_location);
        let t2 = dec_exec(f.download_index);
        let t3 = dec_exec(f.size as u64);
        let ghost old_dv = ts.deep_view();
        let ghost v1 = t1@;
        let ghost v2 = t2@;
        let ghost v3 = t3@;
        ts.push(t1);
        proof {
            assert(ts.deep_view() =~~= old_dv + seq![v1]);
        }
        let ghost dv1 = ts.deep_view();
        ts.push(t2);
        proof {
            assert(ts.deep_view() =~~= dv1 + seq![v2]);
        }
        let ghost dv2 = ts.deep_view();
        ts.push(t3);
        proof {
            assert(ts.deep_view() =~~= dv2 + seq![v3]);
            assert(seq![v1, v2, v3] =~= file_tokens(fv));
            lemma_files_tokens_snoc(r@.required_files.take(k as int), fv);
            assert(r@.required_files.take(k as int).push(fv) =~= r@.required_files.take(
                k as int + 1,
            ));
            assert(ts.deep_view() =~= head_resp_tokens(r@) + files_tokens(
                r@.required_files.take(k as int + 1),
            ));
        }
        k += 1;
    }
    proof {
        assert(r@.required_files.take(n as int) =~= r@.required_files);
    }
    join_tokens(&ts)
}

/// Decode one query-port line into a response, if it parses.
#[verifier::loop_isolation(false)]
pub fn decode_response(line: &Vec<u8>) -> (r: Option<UpdateResponse>)
    ensures
        match r {
            Some(resp) => decode_response_spec(line@) == Some(resp@),
            None => decode_response_spec(line@) is None,
        },
{
    let ts = split_at_byte(line, 0x20);
    proof {
        lemma_deep_view_elts(&ts);
    }
    let ghost tsd = ts.deep_view();
    if ts.len() < 8 {
        return None;
    }
    if !(ts[0].len() == 1 && ts[0][0] == 0x72) {
        proof {
            if tsd[0] == seq![0x72u8] {
                assert(ts@[0]@.len() == 1 && ts@[0]@[0] == 0x72);
            }
        }
        return None;
    }
    proof {
        assert(tsd[0] =~= seq![0x72u8]);
    }
    let code = match untok_code_exec(&ts[1]) {
        Some(x) => x,
        None => {
            return None;
        },
    };
    let up = match untok_bool_exec(&ts[2]) {
        Some(x) => x,
        None => {
            return None;
        },
    };
    let us = match untok_bool_exec(&ts[3]) {
        Some(x) => x,
        None => {
            return None;
        },
    };
    let pn = match untok_str_exec(&ts[4]) {
        Some(x) => x,
        None => {
            return None;
        },
    };
    let nv = match untok_str_exec(&ts[5]) {
        Some(x) => x,
        None => {
            return None;
        },
    };
    let ns = match untok_opt_str_exec(&ts[6]) {
        Some(x) => x,
        None => {
            return None;
        },
    };
    let cnt = match parse_u64_exec(&ts[7]) {
        Some(x) => x,
        None => {
            return None;
        },
    };
    let m = ts.len() - 8;
    let m64: u64 = m as u64;
    if m64 % 3 != 0 || cnt != m64 / 3 {
        proof {
            vstd::arithmetic::div_mod::lemma_fundamental_div_mod(m as int, 3);
            if tsd.len() == 8 + 3 * (cnt as int) {
                assert(3 * (cnt as int) == m as int);
                vstd::arithmetic::div_mod::lemma_mod_multiples_basic(cnt as int, 3);
            }
        }
        return None;
    }
    proof {
        vstd::arithmetic::div_mod::lemma_fundamental_div_mod(m as int, 3);
        assert(tsd.len() == 8 + 3 * (cnt as int));
    }
    let cnt_us: usize = m / 3;
    let mut files: Vec<UpdateFile> = Vec::new();
    let mut k: usize = 0;
    proof {
        assert(files@.map_values(|f: UpdateFile| f@) =~= Seq::<FileV>::empty());
    }
    while k < cnt_us
        invariant
            8 + 3 * (cnt_us as int) == ts@.len(),
            ts@.len() == tsd.len(),
            tsd.len() == 8 + 3 * (cnt as int),
            cnt as int == cnt_us as int,
            k <= cnt_us,
            forall|j: int| 0 <= j < tsd.len() ==> #[trigger] tsd[j] == ts@[j]@,
            files@.len() == k,
            parse_files(tsd, 8, cnt as nat) == (match parse_files(
                tsd,
                8 + 3 * (k as int),
                (cnt - k) as nat,
            ) {
                Some(rest) => Some(files@.map_values(|f: UpdateFile| f@) + rest),
                None => None::<Seq<FileV>>,
            }),
        decreases cnt_us - k,
    {
        let base = 8 + 3 * k;
        let ghost bi = base as int;
        proof {
            assert(bi + 3 <= tsd.len());
        }
        let loc = untok_loc_exec(&ts[base]);
        let idx = match parse_u64_exec(&ts[base + 1]) {
            Some(x) => x,
            None => {
                proof {
                    assert(parse_files(tsd, bi, (cnt - k) as nat) is None);
                }
                return None;
            },
        };
        let sz = match parse_u64_exec(&ts[base + 2]) {
            Some(x) => x,
            None => {
                proof {
                    assert(parse_files(tsd, bi, (cnt - k) as nat) is None);
                }
                return None;
            },
        };
        if sz > usize::MAX as u64 {
            proof {
                assert(parse_files(tsd, bi, (cnt - k) as nat) is None);
            }
            return None;
        }
        let f = UpdateFile { install_location: loc, download_index: idx, size: sz as usize };
        let ghost old_fs = files@.map_values(|f: UpdateFile| f@);
        let ghost fv = f@;
        files.push(f);
        proof {
            assert(files@.map_values(|f: UpdateFile| f@) =~= old_fs.push(fv));
            match parse_files(tsd, bi + 3, (cnt - k - 1) as nat) {
                Some(rest) => {
                    assert(old_fs + (seq![fv] + rest) =~= old_fs.push(fv) + rest);
                },
                None => {},
            }
        }
        k += 1;
    }
    proof {
        assert(parse_files(tsd, 8 + 3 * (k as int), 0) == Some(Seq::<FileV>::empty()));
        assert(files@.map_values(|f: UpdateFile| f@) + Seq::<FileV>::empty() =~= files@.map_values(
            |f: UpdateFile| f@,
        ));
    }
    let resp = UpdateResponse {
        code,
        update_plugin: up,
        update_skyline: us,
        plugin_name: pn,
        new_plugin_version: nv,
        new_skyline_version: ns,
        required_files: files,
    };
    proof {
        let spec_r = parse_resp_tokens(tsd);
        assert(spec_r matches Some(p) && p =~~= resp@);
    }
    Some(resp)
}

// ---------------------------------------------------------------------------
// Metadata messages.
// ---------------------------------------------------------------------------

pub open spec fn meta_tokens(m: MetaV) -> Seq<Seq<u8>> {
    seq![
        seq![0x64u8],
        tok_opt_str(m.name),
        tok_opt_str(m.description),
        dec_digits(m.images_index as nat),
        dec_digits(m.image_count as nat),
        dec_digits(m.changelog_index as nat),
    ]
}

pub open spec fn encode_metadata_spec(m: MetaV) -> Seq<u8> {
    join(meta_tokens(m))
}

pub open spec fn parse_meta_tokens(ts: Seq<Seq<u8>>) -> Option<MetaV> {
    if ts.len() == 6 && ts[0] == seq![0x64u8] {
        match untok_opt_str(ts[1]) {
            None => None,
            Some(name) => match untok_opt_str(ts[2]) {
                None => None,
                Some(description) => match parse_u64(ts[3]) {
                    None => None,
                    Some(ii) => match parse_u64(ts[4]) {
                        None => None,
                        Some(ic) => match parse_u64(ts[5]) {
                            None => None,
                            Some(ci) => Some(MetaV {
                                name,
                                description,
                                images_index: ii,
                                image_count: ic,
                                changelog_index: ci,
                            }),
                        },
                    },
                },
            },
        }
    } else {
        None
    }
}

pub open spec fn decode_metadata_spec(b: Seq<u8>) -> Option<MetaV> {
    parse_meta_tokens(split_byte(b, 0x20))
}

/// Decoding inverts encoding for every metadata answer.
pub proof fn lemma_metadata_round_trip(m: MetaV)
    ensures
        decode_metadata_spec(encode_metadata_spec(m)) == Some(m),
{
    let ts = meta_tokens(m);
    assert(seq![0x64u8][0] == 0x64u8);
    lemma_tok_opt_str(m.name);
    lemma_tok_opt_str(m.description);
    lemma_dec_digits_form(m.images_index as nat);
    lemma_dec_digits_form(m.image_count as nat);
    lemma_dec_digits_form(m.changelog_index as nat);
    lemma_parse_dec(m.images_index);
    lemma_parse_dec(m.image_count);
    lemma_parse_dec(m.changelog_index);
    assert forall|i: int| 0 <= i < ts.len() implies sep_clean(#[trigger] ts[i]) by {
        if i == 0 {
            assert(ts[0] =~= seq![0x64u8]);
        }
    }
    assert(ts.last() == dec_digits(m.changelog_index as nat));
    lemma_split_join(ts);
}

/// Encode a metadata answer as one query-port line.
pub fn encode_metadata(p: &PluginMetadata) -> (out: Vec<u8>)
    ensures
        out@ == encode_metadata_spec(p@),
{
    let mut ts: Vec<Vec<u8>> = Vec::new();
    let mut tag: Vec<u8> = Vec::new();
    tag.push(0x64);
    proof {
        assert(tag@ =~= seq![0x64u8]);
    }
    ts.push(tag);
    ts.push(tok_opt_str_exec(&p.name));
    ts.push(tok_opt_str_exec(&p.description));
    ts.push(dec_exec(p.images_index));
    ts.push(dec_exec(p.image_count));
    ts.push(dec_exec(p.changelog_index));
    proof {
        lemma_deep_view_elts(&ts);
        assert(ts.deep_view() =~= meta_tokens(p@));
    }
    join_tokens(&ts)
}

/// Decode one metadata answer line, if it parses.
pub fn decode_metadata(line: &Vec<u8>) -> (r: Option<PluginMetadata>)
    ensures
        match r {
            Some(p) => decode_metadata_spec(line@) == Some(p@),
            None => decode_metadata_spec(line@) is None,
        },
{
    let ts = split_at_byte(line, 0x20);
    proof {
        lemma_deep_view_elts(&ts);
    }
    let ghost tsd = ts.deep_view();
    if !(ts.len() == 6 && ts[0].len() == 1 && ts[0][0] == 0x64) {
        proof {
            if tsd.len() == 6 && tsd[0] == seq![0x64u8] {
                assert(ts@[0]@.len() == 1 && ts@[0]@[0] == 0x64);
            }
        }
        return None;
    }
    proof {
        assert(tsd[0] =~= seq![0x64u8]);
    }
    let name = match untok_opt_str_exec(&ts[1]) {
        Some(x) => x,
        None => {
            return None;
        },
    };
    let description = match untok_opt_str_exec(&ts[2]) {
        Some(x) => x,
        None => {
            return None;
        },
    };
    let ii = match parse_u64_exec(&ts[3]) {
        Some(x) => x,
        None => {
            return None;
        },
    };
    let ic = match parse_u64_exec(&ts[4]) {
        Some(x) => x,
        None => {
            return None;
        },
    };
    let ci = match parse_u64_exec(&ts[5]) {
        Some(x) => x,
        None => {
            return None;
        },
    };
    Some(PluginMetadata {
        name,
        description,
        images_index: ii,
        image_count: ic,
        changelog_index: ci,
    })
}

} // verus!
