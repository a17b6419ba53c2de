//! The wire shape of the protocol: each message serializes as a tagged
//! record, the variant name as the discriminant key and the field object as
//! the payload, with 128-bit amounts carried as quoted decimal strings.
//! The encoder is total; the decoder accepts exactly the canonical
//! encodings, and both directions are pinned to the same spec-level
//! encoding functions, which makes the serialize/deserialize round trip a
//! theorem rather than a convention.

use vstd::prelude::*;
use vstd::string::*;

use crate::msg::{
    ExecuteMsg, ExecuteMsgView, ExtensionExecuteMsg, ExtensionExecuteMsgView, ExtensionQueryMsg,
    ExtensionQueryMsgView, QueryMsg, QueryMsgView, VaultStandardInfo, VaultStandardInfoView,
};

verus! {

/// The wire form of one character inside a JSON string literal: the
/// quote that would end the literal and the backslash that would start
/// an escape take a backslash prefix; every other character rides
/// verbatim.
pub open spec fn esc_char(c: char) -> Seq<char> {
    if c == '"' || c == '\\' {
        seq!['\\', c]
    } else {
        seq![c]
    }
}

/// The wire form of a string body: each character escaped as needed, so
/// every string has a canonical encoding.
pub open spec fn esc(s: Seq<char>) -> Seq<char>
    decreases s.len(),
{
    if s.len() == 0 {
        Seq::empty()
    } else {
        esc_char(s[0]) + esc(s.drop_first())
    }
}

pub open spec fn is_dec_digit(c: char) -> bool {
    ||| c == '0'
    ||| c == '1'
    ||| c == '2'
    ||| c == '3'
    ||| c == '4'
    ||| c == '5'
    ||| c == '6'
    ||| c == '7'
    ||| c == '8'
    ||| c == '9'
}

pub open spec fn digit_char(d: nat) -> char {
    if d == 0 {
        '0'
    } else if d == 1 {
        '1'
    } else if d == 2 {
        '2'
    } else if d == 3 {
        '3'
    } else if d == 4 {
        '4'
    } else if d == 5 {
        '5'
    } else if d == 6 {
        '6'
    } else if d == 7 {
        '7'
    } else if d == 8 {
        '8'
    } else {
        '9'
    }
}

pub open spec fn digit_val(c: char) -> nat {
    if c == '0' {
        0
    } else if c == '1' {
        1
    } else if c == '2' {
        2
    } else if c == '3' {
        3
    } else if c == '4' {
        4
    } else if c == '5' {
        5
    } else if c == '6' {
        6
    } else if c == '7' {
        7
    } else if c == '8' {
        8
    } else {
        9
    }
}

/// The decimal digits of `n`, most significant first, with no leading
/// zero (except for `n == 0` itself).
pub open spec fn dec_digits(n: nat) -> Seq<char>
    decreases n,
{
    if n < 10 {
        seq![digit_char(n)]
    } else {
        dec_digits(n / 10).push(digit_char(n % 10))
    }
}

/// The value of a sequence of decimal digit characters.
pub open spec fn digits_val(s: Seq<char>) -> nat
    decreases s.len(),
{
    if s.len() == 0 {
        0
    } else {
        digits_val(s.drop_last()) * 10 + digit_val(s.last())
    }
}

pub open spec fn all_dec_digits(s: Seq<char>) -> bool {
    forall|i: int| 0 <= i < s.len() ==> is_dec_digit(s[i])
}

/// A quoted JSON string literal around an escaped body.
pub open spec fn enc_quoted(s: Seq<char>) -> Seq<char> {
    seq!['"'] + (esc(s) + seq!['"'])
}

/// An optional string field: `null` when absent, a quoted literal when
/// present.
pub open spec fn enc_opt_str(o: Option<Seq<char>>) -> Seq<char> {
    match o {
        Option::None => "null"@,
        Option::Some(s) => enc_quoted(s),
    }
}

pub open spec fn enc_ext_exec(e: ExtensionExecuteMsgView) -> Seq<char> {
    match e {
        ExtensionExecuteMsgView::Keeper(p) => "{\"keeper\":\""@ + (esc(p) + "\"}"@),
        ExtensionExecuteMsgView::Lockup(p) => "{\"lockup\":\""@ + (esc(p) + "\"}"@),
    }
}

pub open spec fn enc_exec(m: ExecuteMsgView) -> Seq<char> {
    match m {
        ExecuteMsgView::Deposit { amount, recipient } => "{\"deposit\":{\"amount\":\""@ + (
        dec_digits(amount as nat) + ("\",\"recipient\":"@ + (enc_opt_str(recipient) + "}}"@))),
        ExecuteMsgView::Redeem { recipient, amount } => "{\"redeem\":{\"recipient\":"@ + (
        enc_opt_str(recipient) + (",\"amount\":\""@ + (dec_digits(amount as nat) + "\"}}"@))),
        ExecuteMsgView::VaultExtension(e) => "{\"vault_extension\":"@ + (enc_ext_exec(e)
            + "}"@),
    }
}

pub open spec fn enc_ext_query(e: ExtensionQueryMsgView) -> Seq<char> {
    match e {
        ExtensionQueryMsgView::Keeper(p) => "{\"keeper\":\""@ + (esc(p) + "\"}"@),
        ExtensionQueryMsgView::Lockup(p) => "{\"lockup\":\""@ + (esc(p) + "\"}"@),
    }
}

pub open spec fn enc_query(m: QueryMsgView) -> Seq<char> {
    match m {
        QueryMsgView::VaultStandardInfo => "{\"vault_standard_info\":{}}"@,
        QueryMsgView::Info => "{\"info\":{}}"@,
        QueryMsgView::PreviewDeposit { amount } => "{\"preview_deposit\":{\"amount\":\""@ + (
        dec_digits(amount as nat) + "\"}}"@),
        QueryMsgView::PreviewRedeem { amount } => "{\"preview_redeem\":{\"amount\":\""@ + (
        dec_digits(amount as nat) + "\"}}"@),
        QueryMsgView::MaxDeposit { recipient } => "{\"max_deposit\":{\"recipient\":\""@ + (
        esc(recipient) + "\"}}"@),
        QueryMsgView::MaxRedeem { owner } => "{\"max_redeem\":{\"owner\":\""@ + (esc(owner)
            + "\"}}"@),
        QueryMsgView::TotalAssets => "{\"total_assets\":{}}"@,
        QueryMsgView::TotalVaultTokenSupply => "{\"total_vault_token_supply\":{}}"@,
        QueryMsgView::ConvertToShares { amount } => "{\"convert_to_shares\":{\"amount\":\""@ + (
        dec_digits(amount as nat) + "\"}}"@),
        QueryMsgView::ConvertToAssets { amount } => "{\"convert_to_assets\":{\"amount\":\""@ + (
        dec_digits(amount as nat) + "\"}}"@),
        QueryMsgView::VaultExtension(e) => "{\"vault_extension\":"@ + (enc_ext_query(e) + "}"@),
    }
}

/// The stored form of `VaultStandardInfo`: a plain record with the version
/// as a bare number and the extension names as an array of strings.
pub open spec fn enc_standard_info(v: VaultStandardInfoView) -> Seq<char> {
    "{\"version\":"@ + (dec_digits(v.version as nat) + (",\"extensions\":"@ + (enc_str_list(
        v.extensions,
    ) + "}"@)))
}

pub open spec fn enc_str_list(l: Seq<Seq<char>>) -> Seq<char> {
    if l.len() == 0 {
        "[]"@
    } else {
        seq!['['] + (enc_str_items(l, 0) + seq![']'])
    }
}

pub open spec fn enc_str_items(l: Seq<Seq<char>>, k: int) -> Seq<char>
    recommends
        0 <= k < l.len(),
    decreases l.len() - k,
{
    if k >= l.len() - 1 {
        enc_quoted(l[k])
    } else {
        enc_quoted(l[k]) + (seq![','] + enc_str_items(l, k + 1))
    }
}

/// Relies on std's `String::push`: appends exactly the given character.
#[verifier::external_body]
fn push_char(out: &mut String, c: char)
    ensures
        final(out)@ == old(out)@.push(c),
{
    out.push(c);
}

fn push_escaped(out: &mut String, s: &str)
    ensures
        final(out)@ == old(out)@ + esc(s@),
{
    let n = s.unicode_len();
    let mut k: usize = 0;
    proof {
        assert(esc(s@.take(0)) =~= Seq::<char>::empty());
    }
    while k < n
        invariant
            0 <= k <= n,
            n == s@.len(),
            out@ == old(out)@ + esc(s@.take(k as int)),
        decreases n - k,
    {
        let c = s.get_char(k);
        if c == '"' || c == '\\' {
            push_char(out, '\\');
            push_char(out, c);
        } else {
            push_char(out, c);
        }
        proof {
            assert(s@.take(k + 1) =~= s@.take(k as int).push(s@[k as int]));
            lemma_esc_snoc(s@.take(k as int), s@[k as int]);
            assert(out@ =~= old(out)@ + esc(s@.take(k + 1)));
        }
        k += 1;
    }
    proof {
        assert(s@.take(n as int) =~= s@);
    }
}

fn digit_char_of(d: u128) -> (r: char)
    requires
        d < 10,
    ensures
        r == digit_char(d as nat),
{
    if d == 0 {
        '0'
    } else if d == 1 {
        '1'
    } else if d == 2 {
        '2'
    } else if d == 3 {
        '3'
    } else if d == 4 {
        '4'
    } else if d == 5 {
        '5'
    } else if d == 6 {
        '6'
    } else if d == 7 {
        '7'
    } else if d == 8 {
        '8'
    } else {
        '9'
    }
}

fn push_dec(out: &mut String, n: u128)
    ensures
        final(out)@ == old(out)@ + dec_digits(n as nat),
    decreases n,
{
    if n < 10 {
        push_char(out, digit_char_of(n));
        assert(out@ =~= old(out)@ + dec_digits(n as nat));
    } else {
        push_dec(out, n / 10);
        push_char(out, digit_char_of(n % 10));
        assert(out@ =~= old(out)@ + dec_digits(n as nat));
    }
}

fn push_opt_str(out: &mut String, o: &Option<String>)
    ensures
        final(out)@ == old(out)@ + enc_opt_str(o.deep_view()),
{
    match o {
        Option::None => {
            out.append("null");
        },
        Option::Some(s) => {
            proof {
                reveal_strlit("\"");
            }
            out.append("\"");
            push_escaped(out, s.as_str());
            out.append("\"");
            assert(out@ =~= old(out)@ + enc_opt_str(o.deep_view()));
        },
    }
}

/// Serialize a command to its canonical wire form.
pub fn execute_msg_to_json(m: &ExecuteMsg) -> (r: String)
    ensures
        r@ == enc_exec(m@),
{
    let mut out = String::new();
    match m {
        ExecuteMsg::Deposit { amount, recipient } => {
            out.append("{\"deposit\":{\"amount\":\"");
            push_dec(&mut out, *amount);
            out.append("\",\"recipient\":");
            push_opt_str(&mut out, recipient);
            out.append("}}");
            assert(out@ =~= enc_exec(m@));
        },
        ExecuteMsg::Redeem { recipient, amount } => {
            out.append("{\"redeem\":{\"recipient\":");
            push_opt_str(&mut out, recipient);
            out.append(",\"amount\":\"");
            push_dec(&mut out, *amount);
            out.append("\"}}");
            assert(out@ =~= enc_exec(m@));
        },
        ExecuteMsg::VaultExtension(ext) => {
            match ext {
                ExtensionExecuteMsg::Keeper(p) => {
                    out.append("{\"vault_extension\":");
                    out.append("{\"keeper\":\"");
                    push_escaped(&mut out, p.as_str());
                    out.append("\"}");
                    out.append("}");
                },
                ExtensionExecuteMsg::Lockup(p) => {
                    out.append("{\"vault_extension\":");
                    out.append("{\"lockup\":\"");
                    push_escaped(&mut out, p.as_str());
                    out.append("\"}");
                    out.append("}");
                },
            }
            assert(out@ =~= enc_exec(m@));
        },
    }
    out
}

/// Serialize a query to its canonical wire form.
pub fn query_msg_to_json(m: &QueryMsg) -> (r: String)
    ensures
        r@ == enc_query(m@),
{
    let mut out = String::new();
    match m {
        QueryMsg::VaultStandardInfo {} => {
            out.append("{\"vault_standard_info\":{}}");
            assert(out@ =~= enc_query(m@));
        },
        QueryMsg::Info {} => {
            out.append("{\"info\":{}}");
            assert(out@ =~= enc_query(m@));
        },
        QueryMsg::PreviewDeposit { amount } => {
            out.append("{\"preview_deposit\":{\"amount\":\"");
            push_dec(&mut out, *amount);
            out.append("\"}}");
            assert(out@ =~= enc_query(m@));
        },
        QueryMsg::PreviewRedeem { amount } => {
            out.append("{\"preview_redeem\":{\"amount\":\"");
            push_dec(&mut out, *amount);
            out.append("\"}}");
            assert(out@ =~= enc_query(m@));
        },
        QueryMsg::MaxDeposit { recipient } => {
            out.append("{\"max_deposit\":{\"recipient\":\"");
            push_escaped(&mut out, recipient.as_str());
            out.append("\"}}");
            assert(out@ =~= enc_query(m@));
        },
        QueryMsg::MaxRedeem { owner } => {
            out.append("{\"max_redeem\":{\"owner\":\"");
            push_escaped(&mut out, owner.as_str());
            out.append("\"}}");
            assert(out@ =~= enc_query(m@));
        },
        QueryMsg::TotalAssets {} => {
            out.append("{\"total_assets\":{}}");
            assert(out@ =~= enc_query(m@));
        },
        QueryMsg::TotalVaultTokenSupply {} => {
            out.append("{\"total_vault_token_supply\":{}}");
            assert(out@ =~= enc_query(m@));
        },
        QueryMsg::ConvertToShares { amount } => {
            out.append("{\"convert_to_shares\":{\"amount\":\"");
            push_dec(&mut out, *amount);
            out.append("\"}}");
            assert(out@ =~= enc_query(m@));
        },
        QueryMsg::ConvertToAssets { amount } => {
            out.append("{\"convert_to_assets\":{\"amount\":\"");
            push_dec(&mut out, *amount);
            out.append("\"}}");
            assert(out@ =~= enc_query(m@));
        },
        QueryMsg::VaultExtension(ext) => {
            match ext {
                ExtensionQueryMsg::Keeper(p) => {
                    out.append("{\"vault_extension\":");
                    out.append("{\"keeper\":\"");
                    push_escaped(&mut out, p.as_str());
                    out.append("\"}");
                    out.append("}");
                },
                ExtensionQueryMsg::Lockup(p) => {
                    out.append("{\"vault_extension\":");
                    out.append("{\"lockup\":\"");
                    push_escaped(&mut out, p.as_str());
                    out.append("\"}");
                    out.append("}");
                },
            }
            assert(out@ =~= enc_query(m@));
        },
    }
    out
}

fn push_str_items(out: &mut String, l: &Vec<String>, k: usize)
    requires
        k < l@.len(),
    ensures
        final(out)@ == old(out)@ + enc_str_items(l.deep_view(), k as int),
    decreases l@.len() - k,
{
    proof {
        reveal_strlit("\"");
        reveal_strlit(",");
    }
    out.append("\"");
    push_escaped(out, l[k].as_str());
    out.append("\"");
    if k < l.len() - 1 {
        out.append(",");
        push_str_items(out, l, k + 1);
        assert(out@ =~= old(out)@ + enc_str_items(l.deep_view(), k as int));
    } else {
        assert(out@ =~= old(out)@ + enc_str_items(l.deep_view(), k as int));
    }
}

/// Serialize the standard-info record to the form stored at the
/// well-known `vault_standard_info` key.
pub fn vault_standard_info_to_json(v: &VaultStandardInfo) -> (r: String)
    ensures
        r@ == enc_standard_info(v@),
{
    proof {
        reveal_strlit("[");
        reveal_strlit("]");
        reveal_strlit("[]");
    }
    let mut out = String::new();
    out.append("{\"version\":");
    push_dec(&mut out, v.version as u128);
    out.append(",\"extensions\":");
    if v.extensions.len() == 0 {
        out.append("[]");
    } else {
        out.append("[");
        push_str_items(&mut out, &v.extensions, 0);
        out.append("]");
    }
    out.append("}");
    assert(out@ =~= enc_standard_info(v@));
    out
}

} // verus!

verus! {

proof fn lemma_cancel_left(a: Seq<char>, b: Seq<char>, c: Seq<char>)
    requires
        a + b == a + c,
    ensures
        b == c,
{
    assert((a + b).len() == (a + c).len());
    assert((a + b).len() == a.len() + b.len());
    assert((a + c).len() == a.len() + c.len());
    assert(b.len() == c.len());
    assert forall|i: int| 0 <= i < b.len() implies b[i] == c[i] by {
        assert((a + b)[a.len() + i] == b[i]);
        assert((a + c)[a.len() + i] == c[i]);
    }
    assert(b =~= c);
}

/// Escaping distributes over concatenation.
proof fn lemma_esc_concat(a: Seq<char>, b: Seq<char>)
    ensures
        esc(a + b) == esc(a) + esc(b),
    decreases a.len(),
{
    if a.len() == 0 {
        assert(a + b =~= b);
        assert(esc(a) + esc(b) =~= esc(b));
    } else {
        assert((a + b).len() > 0);
        assert((a + b)[0] == a[0]);
        assert((a + b).drop_first() =~= a.drop_first() + b);
        lemma_esc_concat(a.drop_first(), b);
        assert(esc(a + b) =~= esc(a) + esc(b));
    }
}

proof fn lemma_esc_snoc(a: Seq<char>, c: char)
    ensures
        esc(a.push(c)) == esc(a) + esc_char(c),
{
    assert(a.push(c) =~= a + seq![c]);
    lemma_esc_concat(a, seq![c]);
    assert(seq![c].len() == 1);
    assert(seq![c][0] == c);
    assert(seq![c].drop_first() =~= Seq::<char>::empty());
    assert(esc(seq![c]) == esc_char(c) + esc(Seq::<char>::empty()));
    assert(esc(Seq::<char>::empty()) =~= Seq::<char>::empty());
    assert(esc(seq![c]) =~= esc_char(c));
}

/// Escaped bodies delimited by a quote (or by the end of the input)
/// decompose uniquely: no escaped body runs past the quote that ends
/// another.
proof fn lemma_esc_ext(b1: Seq<char>, t1: Seq<char>, b2: Seq<char>, t2: Seq<char>)
    requires
        esc(b1) + t1 == esc(b2) + t2,
        t1.len() == 0 || t1[0] == '"',
        t2.len() == 0 || t2[0] == '"',
    ensures
        b1 == b2,
        t1 == t2,
    decreases b1.len(),
{
    let s = esc(b1) + t1;
    if b1.len() == 0 {
        if b2.len() > 0 {
            assert(esc(b2) == esc_char(b2[0]) + esc(b2.drop_first()));
            assert(esc_char(b2[0]).len() >= 1);
            assert(s[0] == esc_char(b2[0])[0]);
            assert(esc_char(b2[0])[0] != '"');
            assert(t1.len() > 0);
            assert(s[0] == t1[0]);
            assert(false);
        }
        assert(esc(b1) + t1 =~= t1);
        assert(esc(b2) + t2 =~= t2);
        assert(t1 =~= t2);
        assert(b1 =~= b2);
    } else if b2.len() == 0 {
        assert(esc(b1) == esc_char(b1[0]) + esc(b1.drop_first()));
        assert(esc_char(b1[0]).len() >= 1);
        assert(s[0] == esc_char(b1[0])[0]);
        assert(esc_char(b1[0])[0] != '"');
        assert(t2.len() > 0);
        assert(s[0] == t2[0]);
        assert(false);
    } else {
        let c1 = b1[0];
        let c2 = b2[0];
        assert(esc(b1) == esc_char(c1) + esc(b1.drop_first()));
        assert(esc(b2) == esc_char(c2) + esc(b2.drop_first()));
        assert(s =~= esc_char(c1) + (esc(b1.drop_first()) + t1));
        assert(s =~= esc_char(c2) + (esc(b2.drop_first()) + t2));
        if c1 == '"' || c1 == '\\' {
            assert(s[0] == '\\');
            if c2 == '"' || c2 == '\\' {
                assert(s[1] == c1);
                assert(s[1] == c2);
                assert(esc_char(c1) == esc_char(c2));
                lemma_cancel_left(
                    esc_char(c1),
                    esc(b1.drop_first()) + t1,
                    esc(b2.drop_first()) + t2,
                );
                lemma_esc_ext(b1.drop_first(), t1, b2.drop_first(), t2);
                assert(b1.len() == b2.len());
                assert forall|x: int| 0 <= x < b1.len() implies b1[x] == b2[x] by {
                    if x > 0 {
                        assert(b1.drop_first()[x - 1] == b1[x]);
                        assert(b2.drop_first()[x - 1] == b2[x]);
                    }
                }
                assert(b1 =~= b2);
            } else {
                assert(s[0] == c2);
                assert(false);
            }
        } else {
            assert(s[0] == c1);
            if c2 == '"' || c2 == '\\' {
                assert(s[0] == '\\');
                assert(false);
            } else {
                assert(s[0] == c2);
                assert(esc_char(c1) == esc_char(c2));
                lemma_cancel_left(
                    esc_char(c1),
                    esc(b1.drop_first()) + t1,
                    esc(b2.drop_first()) + t2,
                );
                lemma_esc_ext(b1.drop_first(), t1, b2.drop_first(), t2);
                assert(b1.len() == b2.len());
                assert forall|x: int| 0 <= x < b1.len() implies b1[x] == b2[x] by {
                    if x > 0 {
                        assert(b1.drop_first()[x - 1] == b1[x]);
                        assert(b2.drop_first()[x - 1] == b2[x]);
                    }
                }
                assert(b1 =~= b2);
            }
        }
    }
}

/// An escaped body extending past another continues with whole escapes:
/// the shorter body is a prefix of the longer.
proof fn lemma_esc_prefix(b: Seq<char>, a: Seq<char>, u: Seq<char>)
    requires
        esc(b) == esc(a) + u,
    ensures
        exists|b2: Seq<char>| b == a + b2 && esc(b2) == u,
    decreases a.len(),
{
    if a.len() == 0 {
        assert(esc(a) + u =~= u);
        assert(b =~= a + b);
        assert(b == a + b && esc(b) == u);
    } else {
        assert(esc(a) == esc_char(a[0]) + esc(a.drop_first()));
        assert(esc_char(a[0]).len() >= 1);
        assert(esc(b).len() > 0);
        assert(b.len() > 0);
        assert(esc(b) == esc_char(b[0]) + esc(b.drop_first()));
        let s = esc(b);
        assert(s =~= esc_char(a[0]) + (esc(a.drop_first()) + u));
        let ca = a[0];
        let cb = b[0];
        if ca == '"' || ca == '\\' {
            assert(s[0] == '\\');
            if !(cb == '"' || cb == '\\') {
                assert(s[0] == cb);
                assert(false);
            }
            assert(s[1] == ca);
            assert(s[1] == cb);
            assert(esc_char(ca) == esc_char(cb));
        } else {
            assert(s[0] == ca);
            if cb == '"' || cb == '\\' {
                assert(s[0] == '\\');
                assert(false);
            }
            assert(s[0] == cb);
            assert(esc_char(ca) == esc_char(cb));
        }
        lemma_cancel_left(esc_char(ca), esc(b.drop_first()), esc(a.drop_first()) + u);
        lemma_esc_prefix(b.drop_first(), a.drop_first(), u);
        let b2 = choose|b2: Seq<char>| b.drop_first() == a.drop_first() + b2 && esc(b2) == u;
        assert(b.len() == a.len() + b2.len());
        assert forall|x: int| 0 <= x < b.len() implies b[x] == (a + b2)[x] by {
            if x == 0 {
                assert((a + b2)[0] == a[0]);
            } else {
                assert(b.drop_first()[x - 1] == b[x]);
                assert((a.drop_first() + b2)[x - 1] == b.drop_first()[x - 1]);
                if x < a.len() {
                    assert((a.drop_first() + b2)[x - 1] == a.drop_first()[x - 1]);
                    assert(a.drop_first()[x - 1] == a[x]);
                    assert((a + b2)[x] == a[x]);
                } else {
                    assert((a.drop_first() + b2)[x - 1] == b2[x - a.len()]);
                    assert((a + b2)[x] == b2[x - a.len()]);
                }
            }
        }
        assert(b =~= a + b2);
        assert(b == a + b2 && esc(b2) == u);
    }
}

/// Two quotes each closing an escaped region from the same start are the
/// same quote, closing the same body.
proof fn lemma_esc_region_unique(
    s: Seq<char>,
    i: int,
    b1: Seq<char>,
    j1: int,
    b2: Seq<char>,
    j2: int,
)
    requires
        0 <= i,
        i <= j1 < s.len(),
        i <= j2 < s.len(),
        s[j1] == '"',
        s[j2] == '"',
        s.subrange(i, j1) == esc(b1),
        s.subrange(i, j2) == esc(b2),
    ensures
        j1 == j2,
        b1 == b2,
{
    let n = s.len() as int;
    assert(s.subrange(i, n) =~= esc(b1) + (seq!['"'] + s.subrange(j1 + 1, n)));
    assert(s.subrange(i, n) =~= esc(b2) + (seq!['"'] + s.subrange(j2 + 1, n)));
    lemma_esc_ext(
        b1,
        seq!['"'] + s.subrange(j1 + 1, n),
        b2,
        seq!['"'] + s.subrange(j2 + 1, n),
    );
    assert((seq!['"'] + s.subrange(j1 + 1, n)).len() == (seq!['"'] + s.subrange(j2 + 1, n)).len());
}

proof fn lemma_dec_digits_shape(n: nat)
    ensures
        dec_digits(n).len() >= 1,
        all_dec_digits(dec_digits(n)),
        dec_digits(n).len() > 1 ==> dec_digits(n)[0] != '0',
        n >= 1 ==> dec_digits(n)[0] != '0',
    decreases n,
{
    if n < 10 {
        assert(is_dec_digit(digit_char(n)));
        assert(dec_digits(n) == seq![digit_char(n)]);
        assert(forall|i: int|
            0 <= i < dec_digits(n).len() ==> is_dec_digit(#[trigger] dec_digits(n)[i]));
    } else {
        lemma_dec_digits_shape(n / 10);
        let dd = dec_digits(n / 10);
        let c = digit_char(n % 10);
        assert(is_dec_digit(c));
        assert(dec_digits(n) == dd.push(c));
        assert(dec_digits(n)[0] == dd[0]);
        assert forall|i: int| 0 <= i < dec_digits(n).len() implies is_dec_digit(
            #[trigger] dec_digits(n)[i],
        ) by {
            if i < dd.len() {
                assert(dec_digits(n)[i] == dd[i]);
            } else {
                assert(dec_digits(n)[i] == c);
            }
        }
    }
}

proof fn lemma_digits_val_dec(n: nat)
    ensures
        digits_val(dec_digits(n)) == n,
    decreases n,
{
    if n < 10 {
        let s = dec_digits(n);
        assert(s == seq![digit_char(n)]);
        assert(s.len() == 1);
        assert(s.last() == digit_char(n));
        assert(s.drop_last() =~= Seq::<char>::empty());
        assert(digits_val(Seq::<char>::empty()) == 0);
        assert(digits_val(s) == digit_val(digit_char(n)));
        assert(digit_val(digit_char(n)) == n);
    } else {
        lemma_digits_val_dec(n / 10);
        let dd = dec_digits(n / 10);
        let s = dec_digits(n);
        assert(s == dd.push(digit_char(n % 10)));
        assert(s.drop_last() =~= dd);
        assert(s.last() == digit_char(n % 10));
        assert(digit_val(digit_char(n % 10)) == n % 10);
        assert(digits_val(s) == digits_val(dd) * 10 + n % 10);
    }
}

proof fn lemma_digits_val_step(s: Seq<char>, k: int)
    requires
        0 <= k < s.len(),
    ensures
        digits_val(s.take(k + 1)) == digits_val(s.take(k)) * 10 + digit_val(s[k]),
{
    assert(s.take(k + 1).drop_last() =~= s.take(k));
    assert(s.take(k + 1).last() == s[k]);
}

proof fn lemma_digits_val_prefix_le(s: Seq<char>, k: int)
    requires
        0 <= k <= s.len(),
    ensures
        digits_val(s.take(k)) <= digits_val(s),
    decreases s.len() - k,
{
    if k == s.len() {
        assert(s.take(k) =~= s);
    } else {
        lemma_digits_val_step(s, k);
        lemma_digits_val_prefix_le(s, k + 1);
    }
}

proof fn lemma_digits_val_lower(s: Seq<char>)
    requires
        all_dec_digits(s),
        s.len() >= 1,
        s[0] != '0',
    ensures
        digits_val(s) >= 1,
    decreases s.len(),
{
    if s.len() == 1 {
        assert(s.last() == s[0]);
        assert(is_dec_digit(s[0]));
        assert(digit_val(s[0]) >= 1);
    } else {
        assert(all_dec_digits(s.drop_last())) by {
            assert(forall|i: int|
                0 <= i < s.drop_last().len() ==> #[trigger] s.drop_last()[i] == s[i]);
        }
        assert(s.drop_last()[0] == s[0]);
        lemma_digits_val_lower(s.drop_last());
    }
}

proof fn lemma_dec_of_val(ds: Seq<char>)
    requires
        all_dec_digits(ds),
        ds.len() >= 1,
        ds.len() == 1 || ds[0] != '0',
    ensures
        dec_digits(digits_val(ds)) == ds,
    decreases ds.len(),
{
    if ds.len() == 1 {
        assert(ds.drop_last() =~= Seq::<char>::empty());
        assert(ds.last() == ds[0]);
        assert(is_dec_digit(ds[0]));
        let v = digit_val(ds[0]);
        assert(v < 10);
        assert(digits_val(Seq::<char>::empty()) == 0);
        assert(digits_val(ds) == v);
        assert(digit_char(v) == ds[0]);
        assert(dec_digits(v) =~= ds);
    } else {
        let p = ds.drop_last();
        assert(all_dec_digits(p)) by {
            assert(forall|i: int| 0 <= i < p.len() ==> #[trigger] p[i] == ds[i]);
        }
        assert(p[0] == ds[0]);
        lemma_dec_of_val(p);
        lemma_digits_val_lower(p);
        let vp = digits_val(p);
        let d = digit_val(ds.last());
        assert(is_dec_digit(ds.last()));
        assert(d < 10);
        let v = digits_val(ds);
        assert(v == vp * 10 + d);
        assert(v >= 10);
        assert(v / 10 == vp);
        assert(v % 10 == d);
        assert(digit_char(d) == ds.last());
        assert(dec_digits(v) == dec_digits(vp).push(digit_char(d)));
        assert(dec_digits(v) =~= ds);
    }
}

/// Decimal digit runs delimited by a non-digit decompose uniquely.
proof fn lemma_dec_unique(x: nat, y: nat, tx: Seq<char>, ty: Seq<char>)
    requires
        dec_digits(x) + tx == dec_digits(y) + ty,
        tx.len() == 0 || !is_dec_digit(tx[0]),
        ty.len() == 0 || !is_dec_digit(ty[0]),
    ensures
        x == y,
        tx == ty,
{
    lemma_dec_digits_shape(x);
    lemma_dec_digits_shape(y);
    let dx = dec_digits(x);
    let dy = dec_digits(y);
    let s = dx + tx;
    if dx.len() < dy.len() {
        assert(tx.len() > 0);
        assert(s[dx.len() as int] == tx[0]);
        assert(s[dx.len() as int] == dy[dx.len() as int]);
        assert(is_dec_digit(dy[dx.len() as int]));
        assert(false);
    }
    if dy.len() < dx.len() {
        assert(ty.len() > 0);
        assert(s[dy.len() as int] == ty[0]);
        assert(s[dy.len() as int] == dx[dy.len() as int]);
        assert(is_dec_digit(dx[dy.len() as int]));
        assert(false);
    }
    assert forall|i: int| 0 <= i < dx.len() implies dx[i] == dy[i] by {
        assert(s[i] == dx[i]);
        assert(s[i] == dy[i]);
    }
    assert(dx =~= dy);
    lemma_digits_val_dec(x);
    lemma_digits_val_dec(y);
    lemma_cancel_left(dx, tx, ty);
}

fn is_digit_char(c: char) -> (r: bool)
    ensures
        r == is_dec_digit(c),
{
    c == '0' || c == '1' || c == '2' || c == '3' || c == '4' || c == '5' || c == '6' || c == '7'
        || c == '8' || c == '9'
}

fn digit_val_of(c: char) -> (r: u128)
    requires
        is_dec_digit(c),
    ensures
        r as nat == digit_val(c),
{
    if c == '0' {
        0
    } else if c == '1' {
        1
    } else if c == '2' {
        2
    } else if c == '3' {
        3
    } else if c == '4' {
        4
    } else if c == '5' {
        5
    } else if c == '6' {
        6
    } else if c == '7' {
        7
    } else if c == '8' {
        8
    } else {
        9
    }
}

fn expect_lit(s: &str, i: usize, lit: &str) -> (r: Option<usize>)
    requires
        i <= s@.len(),
    ensures
        match r {
            Option::Some(j) => i + lit@.len() == j && j <= s@.len() && s@.subrange(
                i as int,
                j as int,
            ) == lit@,
            Option::None => !(i + lit@.len() <= s@.len() && s@.subrange(
                i as int,
                i + lit@.len(),
            ) == lit@),
        },
{
    let n = lit.unicode_len();
    let sl = s.unicode_len();
    if n > sl - i {
        return Option::None;
    }
    let mut k: usize = 0;
    while k < n
        invariant
            0 <= k <= n,
            n == lit@.len(),
            sl == s@.len(),
            i + n <= sl,
            forall|t: int| 0 <= t < k ==> s@[i + t] == lit@[t],
        decreases n - k,
    {
        if s.get_char(i + k) != lit.get_char(k) {
            proof {
                if i + n <= s@.len() && s@.subrange(i as int, i + n as int) == lit@ {
                    assert(s@.subrange(i as int, i + n as int)[k as int] == s@[i + k]);
                    assert(false);
                }
            }
            return Option::None;
        }
        k += 1;
    }
    proof {
        assert(s@.subrange(i as int, i + n as int) =~= lit@);
    }
    Option::Some(i + n)
}

fn scan_string_body(s: &str, i: usize) -> (r: Option<(String, usize)>)
    requires
        i <= s@.len(),
    ensures
        match r {
            Option::Some((b, j)) => i <= j < s@.len() && s@[j as int] == '"' && s@.subrange(
                i as int,
                j as int,
            ) == esc(b@),
            Option::None => forall|b: Seq<char>, j: int|
                i <= j < s@.len() && s@[j] == '"' ==> s@.subrange(i as int, j) != esc(b),
        },
{
    let sl = s.unicode_len();
    let mut out = String::new();
    let mut k = i;
    while k < sl
        invariant
            i <= k <= sl,
            sl == s@.len(),
            esc(out@) == s@.subrange(i as int, k as int),
        decreases sl - k,
    {
        let c = s.get_char(k);
        if c == '"' {
            return Option::Some((out, k));
        }
        let ghost out0 = out@;
        if c == '\\' {
            if k + 1 == sl {
                proof {
                    assert forall|b: Seq<char>, j: int|
                        i <= j < s@.len() && s@[j] == '"' implies s@.subrange(i as int, j) != esc(
                        b,
                    ) by {
                        if s@.subrange(i as int, j) == esc(b) {
                            scan_goal_contradiction(s@, i as int, k as int, out0, b, j);
                        }
                    }
                }
                return Option::None;
            }
            let x = s.get_char(k + 1);
            if x == '"' || x == '\\' {
                push_char(&mut out, x);
                proof {
                    lemma_esc_snoc(out0, x);
                    assert(esc(out@) =~= s@.subrange(i as int, k + 2));
                }
                k = k + 2;
            } else {
                proof {
                    assert forall|b: Seq<char>, j: int|
                        i <= j < s@.len() && s@[j] == '"' implies s@.subrange(i as int, j) != esc(
                        b,
                    ) by {
                        if s@.subrange(i as int, j) == esc(b) {
                            scan_goal_contradiction(s@, i as int, k as int, out0, b, j);
                        }
                    }
                }
                return Option::None;
            }
        } else {
            push_char(&mut out, c);
            proof {
                lemma_esc_snoc(out0, c);
                assert(esc(out@) =~= s@.subrange(i as int, k + 1));
            }
            k = k + 1;
        }
    }
    proof {
        assert forall|b: Seq<char>, j: int|
            i <= j < s@.len() && s@[j] == '"' implies s@.subrange(i as int, j) != esc(b) by {
            if s@.subrange(i as int, j) == esc(b) {
                scan_goal_contradiction(s@, i as int, k as int, out@, b, j);
            }
        }
    }
    Option::None
}

/// At a scan position whose consumed prefix is the escape of `a`, and
/// which reads neither an unescaped quote nor a whole escape, no quote
/// anywhere can close an escaped body that started with the scan.
proof fn scan_goal_contradiction(s: Seq<char>, i: int, k: int, a: Seq<char>, b: Seq<char>, j: int)
    requires
        0 <= i <= k <= s.len(),
        esc(a) == s.subrange(i, k),
        i <= j < s.len(),
        s[j] == '"',
        k < s.len() ==> s[k] == '\\',
        k < s.len() ==> k + 1 == s.len() || (s[k + 1] != '"' && s[k + 1] != '\\'),
    ensures
        s.subrange(i, j) != esc(b),
{
    if s.subrange(i, j) == esc(b) {
        if j < k {
            assert(s.subrange(i, k) =~= esc(b) + (seq!['"'] + s.subrange(j + 1, k)));
            assert(esc(a) =~= esc(a) + Seq::<char>::empty());
            lemma_esc_ext(a, Seq::<char>::empty(), b, seq!['"'] + s.subrange(j + 1, k));
            assert((seq!['"'] + s.subrange(j + 1, k)).len() >= 1);
            assert(false);
        } else if j == k {
            assert(s[k] == '\\');
            assert(false);
        } else {
            // j > k: the goal body continues through position k with a
            // whole escape, which the scanner premises rule out
            let u = s.subrange(k, j);
            assert(esc(b) =~= esc(a) + u);
            lemma_esc_prefix(b, a, u);
            let b2 = choose|b2: Seq<char>| b == a + b2 && esc(b2) == u;
            assert(u.len() == j - k >= 1);
            assert(b2.len() > 0);
            assert(esc(b2) == esc_char(b2[0]) + esc(b2.drop_first()));
            assert(u[0] == esc_char(b2[0])[0]);
            assert(u[0] == s[k]);
            assert(s[k] == '\\');
            if !(b2[0] == '"' || b2[0] == '\\') {
                assert(u[0] == b2[0]);
                assert(false);
            }
            assert(esc_char(b2[0]).len() == 2);
            assert(u.len() >= 2);
            assert(k + 1 < j);
            assert(u[1] == esc_char(b2[0])[1]);
            assert(u[1] == s[k + 1]);
            assert(s[k + 1] == b2[0]);
            assert(false);
        }
    }
}

fn scan_u128(s: &str, i: usize) -> (r: Option<(u128, usize)>)
    requires
        i <= s@.len(),
    ensures
        match r {
            Option::Some((v, j)) => i < j <= s@.len() && s@.subrange(i as int, j as int)
                == dec_digits(v as nat) && (j == s@.len() || !is_dec_digit(s@[j as int])),
            Option::None => forall|n: u128, j: int|
                i <= j <= s@.len() && (j == s@.len() || !is_dec_digit(s@[j]))
                    ==> s@.subrange(i as int, j) != dec_digits(n as nat),
        },
{
    let sl = s.unicode_len();
    let mut k = i;
    while k < sl && is_digit_char(s.get_char(k))
        invariant
            i <= k <= sl,
            sl == s@.len(),
            all_dec_digits(s@.subrange(i as int, k as int)),
        decreases sl - k,
    {
        proof {
            assert forall|t: int| 0 <= t < k + 1 - i implies is_dec_digit(
                #[trigger] s@.subrange(i as int, k + 1 as int)[t],
            ) by {
                if t < k - i {
                    assert(s@.subrange(i as int, k as int)[t] == s@.subrange(
                        i as int,
                        k + 1 as int,
                    )[t]);
                } else {
                    assert(s@.subrange(i as int, k + 1 as int)[t] == s@[k as int]);
                }
            }
        }
        k += 1;
    }
    let j = k;
    let ghost ds = s@.subrange(i as int, j as int);
    proof {
        assert(j == s@.len() || !is_dec_digit(s@[j as int]));
    }
    if j == i {
        proof {
            assert forall|n: u128, jj: int|
                i <= jj <= s@.len() && (jj == s@.len() || !is_dec_digit(s@[jj])) implies s@.subrange(
                i as int,
                jj,
            ) != dec_digits(n as nat) by {
                lemma_dec_digits_shape(n as nat);
                if s@.subrange(i as int, jj) == dec_digits(n as nat) {
                    assert(s@.subrange(i as int, jj)[0] == s@[i as int]);
                    assert(is_dec_digit(s@[i as int]));
                    if i < s@.len() && is_dec_digit(s@[i as int]) && i == j {
                        assert(false);
                    }
                    assert(false);
                }
            }
        }
        return Option::None;
    }
    if j - i > 1 && s.get_char(i) == '0' {
        proof {
            assert forall|n: u128, jj: int|
                i <= jj <= s@.len() && (jj == s@.len() || !is_dec_digit(s@[jj])) implies s@.subrange(
                i as int,
                jj,
            ) != dec_digits(n as nat) by {
                lemma_dec_digits_shape(n as nat);
                if s@.subrange(i as int, jj) == dec_digits(n as nat) {
                    assert(dec_digits(n as nat)[0] == s@[i as int]);
                    assert((n as nat) < 10);
                    assert(jj == i + 1);
                    assert(ds[i + 1 - i] == s@[i + 1]);
                    assert(i + 1 < s@.len());
                    assert(is_dec_digit(s@[i + 1]));
                    assert(false);
                }
            }
        }
        return Option::None;
    }
    let mut acc: u128 = 0;
    let mut t = i;
    proof {
        assert(ds.take(0) =~= Seq::<char>::empty());
    }
    while t < j
        invariant
            i <= t <= j <= sl,
            sl == s@.len(),
            ds == s@.subrange(i as int, j as int),
            all_dec_digits(ds),
            j == sl || !is_dec_digit(s@[j as int]),
            acc == digits_val(ds.take(t - i)),
        decreases j - t,
    {
        let c = s.get_char(t);
        proof {
            assert(ds[t - i] == s@[t as int]);
            assert(is_dec_digit(c));
            lemma_digits_val_step(ds, t - i);
        }
        let d = digit_val_of(c);
        proof {
            assert(digits_val(ds.take(t - i + 1)) == (acc * 10 + d) as nat);
        }
        let p = match acc.checked_mul(10) {
            Option::Some(p) => p,
            Option::None => {
                proof {
                    overflow_impossible(s@, i as int, j as int, t as int, acc);
                }
                return Option::None;
            },
        };
        let a2 = match p.checked_add(d) {
            Option::Some(a2) => a2,
            Option::None => {
                proof {
                    overflow_impossible(s@, i as int, j as int, t as int, acc);
                }
                return Option::None;
            },
        };
        acc = a2;
        t += 1;
    }
    proof {
        assert(ds.take(j - i) =~= ds);
        assert(ds.len() >= 1);
        assert(ds[0] == s@[i as int]);
        lemma_dec_of_val(ds);
    }
    Option::Some((acc, j))
}

/// An overflowing accumulator would contradict any delimited digit run
/// that fits in a `u128`, so a canonical amount never overflows the scan.
proof fn overflow_impossible(s: Seq<char>, i: int, j: int, t: int, acc: u128)
    requires
        0 <= i <= t < j <= s.len(),
        all_dec_digits(s.subrange(i, j)),
        j == s.len() || !is_dec_digit(s[j]),
        acc == digits_val(s.subrange(i, j).take(t - i)),
        digits_val(s.subrange(i, j).take(t - i + 1)) > u128::MAX,
    ensures
        forall|n: u128, jj: int|
            i <= jj <= s.len() && (jj == s.len() || !is_dec_digit(s[jj])) ==> s.subrange(i, jj)
                != dec_digits(n as nat),
{
    let ds = s.subrange(i, j);
    assert forall|n: u128, jj: int|
        i <= jj <= s.len() && (jj == s.len() || !is_dec_digit(s[jj])) implies s.subrange(i, jj)
        != dec_digits(n as nat) by {
        if s.subrange(i, jj) == dec_digits(n as nat) {
            lemma_dec_digits_shape(n as nat);
            if jj < j {
                assert(ds[jj - i] == s[jj]);
                assert(false);
            }
            if jj > j {
                assert(s.subrange(i, jj)[j - i] == s[j]);
                assert(is_dec_digit(s[j]));
                assert(false);
            }
            assert(jj == j);
            assert(ds == dec_digits(n as nat));
            lemma_digits_val_dec(n as nat);
            lemma_digits_val_prefix_le(ds, t - i + 1);
            assert(digits_val(ds) == n as nat);
            assert(false);
        }
    }
}

} // verus!

verus! {

/// Both extension variants encode as one literal head, the escaped
/// payload, and a closing `"}}`.
proof fn lemma_ext_exec_full(e: ExtensionExecuteMsgView)
    ensures
        e matches ExtensionExecuteMsgView::Keeper(p) ==> enc_exec(
            ExecuteMsgView::VaultExtension(e),
        ) == "{\"vault_extension\":{\"keeper\":\""@ + (esc(p) + "\"}}"@),
        e matches ExtensionExecuteMsgView::Lockup(p) ==> enc_exec(
            ExecuteMsgView::VaultExtension(e),
        ) == "{\"vault_extension\":{\"lockup\":\""@ + (esc(p) + "\"}}"@),
{
    reveal_strlit("{\"vault_extension\":");
    reveal_strlit("{\"keeper\":\"");
    reveal_strlit("{\"lockup\":\"");
    reveal_strlit("{\"vault_extension\":{\"keeper\":\"");
    reveal_strlit("{\"vault_extension\":{\"lockup\":\"");
    reveal_strlit("\"}");
    reveal_strlit("}");
    reveal_strlit("\"}}");
    match e {
        ExtensionExecuteMsgView::Keeper(p) => {
            assert(enc_exec(ExecuteMsgView::VaultExtension(e))
                =~= "{\"vault_extension\":{\"keeper\":\""@ + (esc(p) + "\"}}"@));
        },
        ExtensionExecuteMsgView::Lockup(p) => {
            assert(enc_exec(ExecuteMsgView::VaultExtension(e))
                =~= "{\"vault_extension\":{\"lockup\":\""@ + (esc(p) + "\"}}"@));
        },
    }
}

spec fn exec_disc(m: ExecuteMsgView) -> int {
    match m {
        ExecuteMsgView::Deposit { .. } => 0,
        ExecuteMsgView::Redeem { .. } => 1,
        ExecuteMsgView::VaultExtension(e) => match e {
            ExtensionExecuteMsgView::Keeper(_) => 2,
            ExtensionExecuteMsgView::Lockup(_) => 3,
        },
    }
}

spec fn exec_code(s: Seq<char>) -> int {
    if s[2] == 'd' {
        0
    } else if s[2] == 'r' {
        1
    } else if s[21] == 'k' {
        2
    } else {
        3
    }
}

/// The wire form of a command determines its variant at two fixed
/// character positions.
proof fn lemma_exec_code(m: ExecuteMsgView)
    ensures
        exec_code(enc_exec(m)) == exec_disc(m),
{
    reveal_strlit("{\"deposit\":{\"amount\":\"");
    reveal_strlit("{\"redeem\":{\"recipient\":");
    reveal_strlit("{\"vault_extension\":{\"keeper\":\"");
    reveal_strlit("{\"vault_extension\":{\"lockup\":\"");
    let s = enc_exec(m);
    match m {
        ExecuteMsgView::Deposit { amount, recipient } => {
            assert(s[2] == "{\"deposit\":{\"amount\":\""@[2]);
        },
        ExecuteMsgView::Redeem { recipient, amount } => {
            assert(s[2] == "{\"redeem\":{\"recipient\":"@[2]);
        },
        ExecuteMsgView::VaultExtension(e) => {
            lemma_ext_exec_full(e);
            match e {
                ExtensionExecuteMsgView::Keeper(p) => {
                    assert(s[2] == "{\"vault_extension\":{\"keeper\":\""@[2]);
                    assert(s[21] == "{\"vault_extension\":{\"keeper\":\""@[21]);
                },
                ExtensionExecuteMsgView::Lockup(p) => {
                    assert(s[2] == "{\"vault_extension\":{\"lockup\":\""@[2]);
                    assert(s[21] == "{\"vault_extension\":{\"lockup\":\""@[21]);
                },
            }
        },
    }
}

/// Equal encodings whose next field is a quoted literal agree on that
/// field and on everything after it.
proof fn lemma_quoted_then(s1: Seq<char>, t1: Seq<char>, s2: Seq<char>, t2: Seq<char>)
    requires
        (seq!['"'] + (esc(s1) + seq!['"'])) + t1 == (seq!['"'] + (esc(s2) + seq!['"'])) + t2,
    ensures
        s1 == s2,
        t1 == t2,
{
    assert((seq!['"'] + (esc(s1) + seq!['"'])) + t1 =~= seq!['"'] + (esc(s1) + (seq!['"'] + t1)));
    assert((seq!['"'] + (esc(s2) + seq!['"'])) + t2 =~= seq!['"'] + (esc(s2) + (seq!['"'] + t2)));
    lemma_cancel_left(
        seq!['"'],
        esc(s1) + (seq!['"'] + t1),
        esc(s2) + (seq!['"'] + t2),
    );
    lemma_esc_ext(s1, seq!['"'] + t1, s2, seq!['"'] + t2);
    lemma_cancel_left(seq!['"'], t1, t2);
}

/// Canonical encodings are injective on well-formed commands: the wire
/// form determines the message.
pub proof fn lemma_enc_exec_inj(a: ExecuteMsgView, b: ExecuteMsgView)
    requires
        enc_exec(a) == enc_exec(b),
    ensures
        a == b,
{
    reveal_strlit("{\"deposit\":{\"amount\":\"");
    reveal_strlit("{\"redeem\":{\"recipient\":");
    reveal_strlit("{\"vault_extension\":{\"keeper\":\"");
    reveal_strlit("{\"vault_extension\":{\"lockup\":\"");
    reveal_strlit("\",\"recipient\":");
    reveal_strlit(",\"amount\":\"");
    reveal_strlit("null");
    reveal_strlit("}}");
    reveal_strlit("\"}}");
    lemma_exec_code(a);
    lemma_exec_code(b);
    match a {
        ExecuteMsgView::Deposit { amount: a1, recipient: r1 } => match b {
            ExecuteMsgView::Deposit { amount: a2, recipient: r2 } => {
                let mid = "\",\"recipient\":"@;
                let t1 = dec_digits(a1 as nat) + (mid + (enc_opt_str(r1) + "}}"@));
                let t2 = dec_digits(a2 as nat) + (mid + (enc_opt_str(r2) + "}}"@));
                lemma_cancel_left("{\"deposit\":{\"amount\":\""@, t1, t2);
                assert((mid + (enc_opt_str(r1) + "}}"@))[0] == '"');
                assert((mid + (enc_opt_str(r2) + "}}"@))[0] == '"');
                lemma_dec_unique(
                    a1 as nat,
                    a2 as nat,
                    mid + (enc_opt_str(r1) + "}}"@),
                    mid + (enc_opt_str(r2) + "}}"@),
                );
                lemma_cancel_left(mid, enc_opt_str(r1) + "}}"@, enc_opt_str(r2) + "}}"@);
                match (r1, r2) {
                    (Option::None, Option::None) => {
                        assert(a == b);
                    },
                    (Option::Some(s1), Option::Some(s2)) => {
                        lemma_quoted_then(s1, "}}"@, s2, "}}"@);
                        assert(a == b);
                    },
                    (Option::None, Option::Some(s2)) => {
                        assert((enc_opt_str(r1) + "}}"@)[0] == 'n');
                        assert((enc_opt_str(r2) + "}}"@)[0] == '"');
                        assert(false);
                    },
                    (Option::Some(s1), Option::None) => {
                        assert((enc_opt_str(r1) + "}}"@)[0] == '"');
                        assert((enc_opt_str(r2) + "}}"@)[0] == 'n');
                        assert(false);
                    },
                }
            },
            _ => {
                assert(false);
            },
        },
        ExecuteMsgView::Redeem { recipient: r1, amount: a1 } => match b {
            ExecuteMsgView::Redeem { recipient: r2, amount: a2 } => {
                let amt = ",\"amount\":\""@;
                let u1 = enc_opt_str(r1) + (amt + (dec_digits(a1 as nat) + "\"}}"@));
                let u2 = enc_opt_str(r2) + (amt + (dec_digits(a2 as nat) + "\"}}"@));
                lemma_cancel_left("{\"redeem\":{\"recipient\":"@, u1, u2);
                match (r1, r2) {
                    (Option::None, Option::None) => {
                        assert(u1 =~= "null"@ + (amt + (dec_digits(a1 as nat) + "\"}}"@)));
                        assert(u2 =~= "null"@ + (amt + (dec_digits(a2 as nat) + "\"}}"@)));
                        lemma_cancel_left(
                            "null"@,
                            amt + (dec_digits(a1 as nat) + "\"}}"@),
                            amt + (dec_digits(a2 as nat) + "\"}}"@),
                        );
                        lemma_cancel_left(
                            amt,
                            dec_digits(a1 as nat) + "\"}}"@,
                            dec_digits(a2 as nat) + "\"}}"@,
                        );
                        assert(("\"}}"@)[0] == '"');
                        lemma_dec_unique(a1 as nat, a2 as nat, "\"}}"@, "\"}}"@);
                        assert(a == b);
                    },
                    (Option::Some(s1), Option::Some(s2)) => {
                        assert(u1 =~= (seq!['"'] + (esc(s1) + seq!['"'])) + (amt + (dec_digits(
                            a1 as nat,
                        ) + "\"}}"@)));
                        assert(u2 =~= (seq!['"'] + (esc(s2) + seq!['"'])) + (amt + (dec_digits(
                            a2 as nat,
                        ) + "\"}}"@)));
                        lemma_quoted_then(
                            s1,
                            amt + (dec_digits(a1 as nat) + "\"}}"@),
                            s2,
                            amt + (dec_digits(a2 as nat) + "\"}}"@),
                        );
                        lemma_cancel_left(
                            amt,
                            dec_digits(a1 as nat) + "\"}}"@,
                            dec_digits(a2 as nat) + "\"}}"@,
                        );
                        assert(("\"}}"@)[0] == '"');
                        lemma_dec_unique(a1 as nat, a2 as nat, "\"}}"@, "\"}}"@);
                        assert(a == b);
                    },
                    (Option::None, Option::Some(s2)) => {
                        assert(u1[0] == 'n');
                        assert(u2[0] == '"');
                        assert(false);
                    },
                    (Option::Some(s1), Option::None) => {
                        assert(u1[0] == '"');
                        assert(u2[0] == 'n');
                        assert(false);
                    },
                }
            },
            _ => {
                assert(false);
            },
        },
        ExecuteMsgView::VaultExtension(e1) => match b {
            ExecuteMsgView::VaultExtension(e2) => {
                lemma_ext_exec_full(e1);
                lemma_ext_exec_full(e2);
                match (e1, e2) {
                    (
                        ExtensionExecuteMsgView::Keeper(p1),
                        ExtensionExecuteMsgView::Keeper(p2),
                    ) => {
                        lemma_cancel_left(
                            "{\"vault_extension\":{\"keeper\":\""@,
                            esc(p1) + "\"}}"@,
                            esc(p2) + "\"}}"@,
                        );
                        assert(esc(p1) + "\"}}"@ =~= esc(p1) + (seq!['"'] + "}}"@));
                        assert(esc(p2) + "\"}}"@ =~= esc(p2) + (seq!['"'] + "}}"@));
                        lemma_esc_ext(p1, seq!['"'] + "}}"@, p2, seq!['"'] + "}}"@);
                        assert(a == b);
                    },
                    (
                        ExtensionExecuteMsgView::Lockup(p1),
                        ExtensionExecuteMsgView::Lockup(p2),
                    ) => {
                        lemma_cancel_left(
                            "{\"vault_extension\":{\"lockup\":\""@,
                            esc(p1) + "\"}}"@,
                            esc(p2) + "\"}}"@,
                        );
                        assert(esc(p1) + "\"}}"@ =~= esc(p1) + (seq!['"'] + "}}"@));
                        assert(esc(p2) + "\"}}"@ =~= esc(p2) + (seq!['"'] + "}}"@));
                        lemma_esc_ext(p1, seq!['"'] + "}}"@, p2, seq!['"'] + "}}"@);
                        assert(a == b);
                    },
                    _ => {
                        assert(false);
                    },
                }
            },
            _ => {
                assert(false);
            },
        },
    }
}

} // verus!

verus! {

/// Two maximal digit runs starting at the same place are the same run.
proof fn lemma_dec_region_unique(s: Seq<char>, i: int, x: nat, jx: int, y: nat, jy: int)
    requires
        0 <= i,
        i <= jx <= s.len(),
        i <= jy <= s.len(),
        s.subrange(i, jx) == dec_digits(x),
        s.subrange(i, jy) == dec_digits(y),
        jx == s.len() || !is_dec_digit(s[jx]),
        jy == s.len() || !is_dec_digit(s[jy]),
    ensures
        x == y,
        jx == jy,
{
    lemma_dec_digits_shape(x);
    lemma_dec_digits_shape(y);
    if jx < jy {
        assert(s.subrange(i, jy)[jx - i] == s[jx]);
        assert(is_dec_digit(s[jx]));
        assert(false);
    }
    if jy < jx {
        assert(s.subrange(i, jx)[jy - i] == s[jy]);
        assert(is_dec_digit(s[jy]));
        assert(false);
    }
    lemma_digits_val_dec(x);
    lemma_digits_val_dec(y);
}

fn try_unit(s: &str, lit: &str) -> (r: bool)
    ensures
        r <==> s@ == lit@,
{
    let sl = s.unicode_len();
    match expect_lit(s, 0, lit) {
        Option::Some(j) => {
            if j == sl {
                proof {
                    assert(s@ =~= s@.subrange(0, j as int));
                }
                true
            } else {
                proof {
                    if s@ == lit@ {
                        assert(false);
                    }
                }
                false
            }
        },
        Option::None => {
            proof {
                if s@ == lit@ {
                    assert(s@.subrange(0, lit@.len() as int) =~= lit@);
                    assert(false);
                }
            }
            false
        },
    }
}

/// Parse a whole input of the shape `lit`, digits, `"}}`.
fn try_amount_obj(s: &str, lit: &str) -> (r: Option<u128>)
    ensures
        match r {
            Option::Some(v) => s@ == lit@ + (dec_digits(v as nat) + "\"}}"@),
            Option::None => forall|v: u128| s@ != lit@ + (dec_digits(v as nat) + "\"}}"@),
        },
{
    proof {
        reveal_strlit("\"}}");
    }
    let sl = s.unicode_len();
    let ghost ln = lit@.len() as int;
    let i1 = match expect_lit(s, 0, lit) {
        Option::Some(i1) => i1,
        Option::None => {
            proof {
                assert forall|v: u128| s@ != lit@ + (dec_digits(v as nat) + "\"}}"@) by {
                    if s@ == lit@ + (dec_digits(v as nat) + "\"}}"@) {
                        assert(s@.subrange(0, ln) =~= lit@);
                        assert(false);
                    }
                }
            }
            return Option::None;
        },
    };
    let (v, j) = match scan_u128(s, i1) {
        Option::Some(p) => p,
        Option::None => {
            proof {
                assert forall|v: u128| s@ != lit@ + (dec_digits(v as nat) + "\"}}"@) by {
                    if s@ == lit@ + (dec_digits(v as nat) + "\"}}"@) {
                        let d = dec_digits(v as nat);
                        assert(s@.subrange(ln, ln + d.len()) =~= d);
                        assert(s@[ln + d.len()] == '"');
                        assert(false);
                    }
                }
            }
            return Option::None;
        },
    };
    let j2 = match expect_lit(s, j, "\"}}") {
        Option::Some(j2) => j2,
        Option::None => {
            proof {
                assert forall|v2: u128| s@ != lit@ + (dec_digits(v2 as nat) + "\"}}"@) by {
                    if s@ == lit@ + (dec_digits(v2 as nat) + "\"}}"@) {
                        let d = dec_digits(v2 as nat);
                        assert(s@.subrange(ln, ln + d.len()) =~= d);
                        assert(s@[ln + d.len()] == '"');
                        lemma_dec_region_unique(
                            s@,
                            ln,
                            v as nat,
                            j as int,
                            v2 as nat,
                            ln + d.len(),
                        );
                        assert(s@.subrange(j as int, j + 3) =~= "\"}}"@);
                        assert(false);
                    }
                }
            }
            return Option::None;
        },
    };
    if j2 != sl {
        proof {
            assert forall|v2: u128| s@ != lit@ + (dec_digits(v2 as nat) + "\"}}"@) by {
                if s@ == lit@ + (dec_digits(v2 as nat) + "\"}}"@) {
                    let d = dec_digits(v2 as nat);
                    assert(s@.subrange(ln, ln + d.len()) =~= d);
                    assert(s@[ln + d.len()] == '"');
                    lemma_dec_region_unique(s@, ln, v as nat, j as int, v2 as nat, ln + d.len());
                    assert(false);
                }
            }
        }
        return Option::None;
    }
    proof {
        assert(s@ =~= lit@ + (dec_digits(v as nat) + "\"}}"@));
    }
    Option::Some(v)
}

/// Parse a whole input of the shape `lit`, an escaped body, `"}}`.
fn try_str_obj(s: &str, lit: &str) -> (r: Option<String>)
    ensures
        match r {
            Option::Some(b) => s@ == lit@ + (esc(b@) + "\"}}"@),
            Option::None => forall|b: Seq<char>| s@ != lit@ + (esc(b) + "\"}}"@),
        },
{
    proof {
        reveal_strlit("\"}}");
    }
    let sl = s.unicode_len();
    let ghost ln = lit@.len() as int;
    let i1 = match expect_lit(s, 0, lit) {
        Option::Some(i1) => i1,
        Option::None => {
            proof {
                assert forall|b: Seq<char>| s@ != lit@ + (esc(b) + "\"}}"@) by {
                    if s@ == lit@ + (esc(b) + "\"}}"@) {
                        assert(s@.subrange(0, ln) =~= lit@);
                        assert(false);
                    }
                }
            }
            return Option::None;
        },
    };
    let (body, j) = match scan_string_body(s, i1) {
        Option::Some(p) => p,
        Option::None => {
            proof {
                assert forall|b: Seq<char>| s@ != lit@ + (esc(b) + "\"}}"@) by {
                    if s@ == lit@ + (esc(b) + "\"}}"@) {
                        assert(s@.subrange(ln, ln + esc(b).len()) =~= esc(b));
                        assert(s@[ln + esc(b).len()] == '"');
                        assert(false);
                    }
                }
            }
            return Option::None;
        },
    };
    let j2 = match expect_lit(s, j, "\"}}") {
        Option::Some(j2) => j2,
        Option::None => {
            proof {
                assert forall|b: Seq<char>| s@ != lit@ + (esc(b) + "\"}}"@) by {
                    if s@ == lit@ + (esc(b) + "\"}}"@) {
                        assert(s@.subrange(ln, ln + esc(b).len()) =~= esc(b));
                        assert(s@[ln + esc(b).len()] == '"');
                        lemma_esc_region_unique(s@, ln, body@, j as int, b, ln + esc(b).len());
                        assert(s@.subrange(j as int, j + 3) =~= "\"}}"@);
                        assert(false);
                    }
                }
            }
            return Option::None;
        },
    };
    if j2 != sl {
        proof {
            assert forall|b: Seq<char>| s@ != lit@ + (esc(b) + "\"}}"@) by {
                if s@ == lit@ + (esc(b) + "\"}}"@) {
                    assert(s@.subrange(ln, ln + esc(b).len()) =~= esc(b));
                    assert(s@[ln + esc(b).len()] == '"');
                    lemma_esc_region_unique(s@, ln, body@, j as int, b, ln + esc(b).len());
                    assert(false);
                }
            }
        }
        return Option::None;
    }
    proof {
        assert(s@ =~= lit@ + (esc(body@) + "\"}}"@));
    }
    Option::Some(body)
}

} // verus!

verus! {

fn try_deposit(s: &str) -> (r: Option<ExecuteMsg>)
    ensures
        r matches Some(m) ==> s@ == enc_exec(m@),
        r is None ==> forall|a: u128, rec: Option<Seq<char>>|
            s@ != enc_exec(ExecuteMsgView::Deposit { amount: a, recipient: rec }),
{
    proof {
        reveal_strlit("{\"deposit\":{\"amount\":\"");
        reveal_strlit("\",\"recipient\":");
        reveal_strlit("null}}");
        reveal_strlit("null");
        reveal_strlit("}}");
        reveal_strlit("\"");
        reveal_strlit("\"}}");
        assert("null}}"@ =~= "null"@ + "}}"@);
        assert("\"}}"@ =~= seq!['"'] + "}}"@);
    }
    let ghost lhead = "{\"deposit\":{\"amount\":\""@;
    let ghost lmid = "\",\"recipient\":"@;
    let ghost encd = |a: u128, rec: Option<Seq<char>>|
        lhead + (dec_digits(a as nat) + (lmid + (enc_opt_str(rec) + "}}"@)));
    proof {
        assert forall|a: u128, rec: Option<Seq<char>>|
            #[trigger] enc_exec(ExecuteMsgView::Deposit { amount: a, recipient: rec }) == encd(
            a,
            rec,
        ) by {}
    }
    let sl = s.unicode_len();
    let i1 = match expect_lit(s, 0, "{\"deposit\":{\"amount\":\"") {
        Option::Some(i1) => i1,
        Option::None => {
            proof {
                assert forall|a: u128, rec: Option<Seq<char>>| s@ != #[trigger] encd(a, rec) by {
                    if s@ == encd(a, rec) {
                        assert(s@.subrange(0, lhead.len() as int) =~= lhead);
                        assert(false);
                    }
                }
            }
            return Option::None;
        },
    };
    let (v, j) = match scan_u128(s, i1) {
        Option::Some(p) => p,
        Option::None => {
            proof {
                assert forall|a: u128, rec: Option<Seq<char>>| s@ != #[trigger] encd(a, rec) by {
                    if s@ == encd(a, rec) {
                        let d = dec_digits(a as nat);
                        assert(s@.subrange(i1 as int, i1 + d.len()) =~= d);
                        assert(s@[i1 + d.len()] == '"');
                        assert(false);
                    }
                }
            }
            return Option::None;
        },
    };
    let j2 = match expect_lit(s, j, "\",\"recipient\":") {
        Option::Some(j2) => j2,
        Option::None => {
            proof {
                assert forall|a: u128, rec: Option<Seq<char>>| s@ != #[trigger] encd(a, rec) by {
                    if s@ == encd(a, rec) {
                        let d = dec_digits(a as nat);
                        assert(s@.subrange(i1 as int, i1 + d.len()) =~= d);
                        assert(s@[i1 + d.len()] == '"');
                        lemma_dec_region_unique(
                            s@,
                            i1 as int,
                            v as nat,
                            j as int,
                            a as nat,
                            i1 + d.len(),
                        );
                        assert(s@.subrange(j as int, j + lmid.len()) =~= lmid);
                        assert(false);
                    }
                }
            }
            return Option::None;
        },
    };
    // the goal amount and digit end are pinned from here on
    proof {
        assert forall|a: u128, rec: Option<Seq<char>>| s@ == #[trigger] encd(a, rec) implies a == v
            && i1 + dec_digits(a as nat).len() == j by {
            let d = dec_digits(a as nat);
            assert(s@.subrange(i1 as int, i1 + d.len()) =~= d);
            assert(s@[i1 + d.len()] == '"');
            lemma_dec_region_unique(s@, i1 as int, v as nat, j as int, a as nat, i1 + d.len());
        }
    }
    match expect_lit(s, j2, "null}}") {
        Option::Some(j3) => {
            if j3 == sl {
                let m = ExecuteMsg::Deposit { amount: v, recipient: Option::None };
                proof {
                    assert(s@ =~= s@.subrange(0, i1 as int) + (s@.subrange(i1 as int, j as int)
                        + (s@.subrange(j as int, j2 as int) + s@.subrange(j2 as int, j3 as int))));
                    assert(s@ =~= encd(v, Option::None));
                }
                return Option::Some(m);
            }
            proof {
                assert forall|a: u128, rec: Option<Seq<char>>| s@ != #[trigger] encd(a, rec) by {
                    if s@ == encd(a, rec) {
                        match rec {
                            Option::None => {
                                assert(s@.len() == j2 + 6);
                                assert(false);
                            },
                            Option::Some(b) => {
                                assert(s@[j2 as int] == '"');
                                assert(s@.subrange(j2 as int, j2 + 6)[0] == s@[j2 as int]);
                                assert(false);
                            },
                        }
                    }
                }
            }
            return Option::None;
        },
        Option::None => {},
    }
    // not the null form: recipient must be a quoted string
    let j3 = match expect_lit(s, j2, "\"") {
        Option::Some(j3) => j3,
        Option::None => {
            proof {
                assert forall|a: u128, rec: Option<Seq<char>>| s@ != #[trigger] encd(a, rec) by {
                    if s@ == encd(a, rec) {
                        match rec {
                            Option::None => {
                                assert(s@.subrange(j2 as int, j2 + 6) =~= "null}}"@);
                                assert(false);
                            },
                            Option::Some(b) => {
                                assert(s@.subrange(j2 as int, j2 + 1) =~= "\""@);
                                assert(false);
                            },
                        }
                    }
                }
            }
            return Option::None;
        },
    };
    let (body, j4) = match scan_string_body(s, j3) {
        Option::Some(p) => p,
        Option::None => {
            proof {
                assert forall|a: u128, rec: Option<Seq<char>>| s@ != #[trigger] encd(a, rec) by {
                    if s@ == encd(a, rec) {
                        match rec {
                            Option::None => {
                                assert(s@.subrange(j2 as int, j2 + 6) =~= "null}}"@);
                                assert(false);
                            },
                            Option::Some(b) => {
                                assert(s@.subrange(j3 as int, j3 + esc(b).len()) =~= esc(b));
                                assert(s@[j3 + esc(b).len()] == '"');
                                assert(false);
                            },
                        }
                    }
                }
            }
            return Option::None;
        },
    };
    let j5 = match expect_lit(s, j4, "\"}}") {
        Option::Some(j5) => j5,
        Option::None => {
            proof {
                assert forall|a: u128, rec: Option<Seq<char>>| s@ != #[trigger] encd(a, rec) by {
                    if s@ == encd(a, rec) {
                        match rec {
                            Option::None => {
                                assert(s@.subrange(j2 as int, j2 + 6) =~= "null}}"@);
                                assert(false);
                            },
                            Option::Some(b) => {
                                assert(s@.subrange(j3 as int, j3 + esc(b).len()) =~= esc(b));
                                assert(s@[j3 + esc(b).len()] == '"');
                                lemma_esc_region_unique(
                                    s@,
                                    j3 as int,
                                    body@,
                                    j4 as int,
                                    b,
                                    j3 + esc(b).len(),
                                );
                                assert(s@.subrange(j4 as int, j4 + 3) =~= "\"}}"@);
                                assert(false);
                            },
                        }
                    }
                }
            }
            return Option::None;
        },
    };
    if j5 != sl {
        proof {
            assert forall|a: u128, rec: Option<Seq<char>>| s@ != #[trigger] encd(a, rec) by {
                if s@ == encd(a, rec) {
                    match rec {
                        Option::None => {
                            assert(s@.subrange(j2 as int, j2 + 6) =~= "null}}"@);
                            assert(false);
                        },
                        Option::Some(b) => {
                            assert(s@.subrange(j3 as int, j3 + esc(b).len()) =~= esc(b));
                            assert(s@[j3 + esc(b).len()] == '"');
                            lemma_esc_region_unique(
                                s@,
                                j3 as int,
                                body@,
                                j4 as int,
                                b,
                                j3 + esc(b).len(),
                            );
                            assert(s@.len() == j4 + 3);
                            assert(false);
                        },
                    }
                }
            }
        }
        return Option::None;
    }
    let m = ExecuteMsg::Deposit { amount: v, recipient: Option::Some(body) };
    proof {
        assert(s@ =~= s@.subrange(0, i1 as int) + (s@.subrange(i1 as int, j as int) + (s@.subrange(
            j as int,
            j2 as int,
        ) + (s@.subrange(j2 as int, j3 as int) + (s@.subrange(j3 as int, j4 as int) + s@.subrange(
            j4 as int,
            j5 as int,
        ))))));
        assert(s@ =~= encd(v, Option::Some(body@)));
    }
    Option::Some(m)
}

} // verus!

verus! {

fn try_redeem(s: &str) -> (r: Option<ExecuteMsg>)
    ensures
        r matches Some(m) ==> s@ == enc_exec(m@),
        r is None ==> forall|rec: Option<Seq<char>>, a: u128|
            s@ != enc_exec(ExecuteMsgView::Redeem { recipient: rec, amount: a }),
{
    proof {
        reveal_strlit("{\"redeem\":{\"recipient\":");
        reveal_strlit(",\"amount\":\"");
        reveal_strlit("null,\"amount\":\"");
        reveal_strlit("\",\"amount\":\"");
        reveal_strlit("null");
        reveal_strlit("\"");
        reveal_strlit("\"}}");
        assert("null,\"amount\":\""@ =~= "null"@ + ",\"amount\":\""@);
        assert("\",\"amount\":\""@ =~= seq!['"'] + ",\"amount\":\""@);
    }
    let ghost lhead = "{\"redeem\":{\"recipient\":"@;
    let ghost lamt = ",\"amount\":\""@;
    let ghost encr = |rec: Option<Seq<char>>, a: u128|
        lhead + (enc_opt_str(rec) + (lamt + (dec_digits(a as nat) + "\"}}"@)));
    proof {
        assert forall|rec: Option<Seq<char>>, a: u128|
            #[trigger] enc_exec(ExecuteMsgView::Redeem { recipient: rec, amount: a }) == encr(
            rec,
            a,
        ) by {}
    }
    let sl = s.unicode_len();
    let i1 = match expect_lit(s, 0, "{\"redeem\":{\"recipient\":") {
        Option::Some(i1) => i1,
        Option::None => {
            proof {
                assert forall|rec: Option<Seq<char>>, a: u128| s@ != #[trigger] encr(rec, a) by {
                    if s@ == encr(rec, a) {
                        assert(s@.subrange(0, lhead.len() as int) =~= lhead);
                        assert(false);
                    }
                }
            }
            return Option::None;
        },
    };
    match expect_lit(s, i1, "null,\"amount\":\"") {
        Option::Some(j2) => {
            // recipient is null; the amount follows
            proof {
                assert forall|rec: Option<Seq<char>>, a: u128| s@ == #[trigger] encr(rec, a)
                    implies rec is None by {
                    if rec matches Option::Some(b) {
                        assert(s@[i1 as int] == '"');
                        assert(s@.subrange(i1 as int, i1 + 15)[0] == s@[i1 as int]);
                        assert(false);
                    }
                }
            }
            let (v, j3) = match scan_u128(s, j2) {
                Option::Some(p) => p,
                Option::None => {
                    proof {
                        assert forall|rec: Option<Seq<char>>, a: u128| s@ != #[trigger] encr(
                            rec,
                            a,
                        ) by {
                            if s@ == encr(rec, a) {
                                let d = dec_digits(a as nat);
                                assert(s@.subrange(j2 as int, j2 + d.len()) =~= d);
                                assert(s@[j2 + d.len()] == '"');
                                assert(false);
                            }
                        }
                    }
                    return Option::None;
                },
            };
            proof {
                assert forall|rec: Option<Seq<char>>, a: u128| s@ == #[trigger] encr(rec, a)
                    implies a == v && j2 + dec_digits(a as nat).len() == j3 by {
                    let d = dec_digits(a as nat);
                    assert(s@.subrange(j2 as int, j2 + d.len()) =~= d);
                    assert(s@[j2 + d.len()] == '"');
                    lemma_dec_region_unique(
                        s@,
                        j2 as int,
                        v as nat,
                        j3 as int,
                        a as nat,
                        j2 + d.len(),
                    );
                }
            }
            let j4 = match expect_lit(s, j3, "\"}}") {
                Option::Some(j4) => j4,
                Option::None => {
                    proof {
                        assert forall|rec: Option<Seq<char>>, a: u128| s@ != #[trigger] encr(
                            rec,
                            a,
                        ) by {
                            if s@ == encr(rec, a) {
                                assert(s@.subrange(j3 as int, j3 + 3) =~= "\"}}"@);
                                assert(false);
                            }
                        }
                    }
                    return Option::None;
                },
            };
            if j4 != sl {
                proof {
                    assert forall|rec: Option<Seq<char>>, a: u128| s@ != #[trigger] encr(
                        rec,
                        a,
                    ) by {
                        if s@ == encr(rec, a) {
                            assert(s@.len() == j3 + 3);
                            assert(false);
                        }
                    }
                }
                return Option::None;
            }
            let m = ExecuteMsg::Redeem { recipient: Option::None, amount: v };
            proof {
                assert(s@ =~= s@.subrange(0, i1 as int) + (s@.subrange(i1 as int, i1 + 4)
                    + (s@.subrange(i1 + 4, j2 as int) + (s@.subrange(j2 as int, j3 as int)
                    + s@.subrange(j3 as int, j4 as int)))));
                assert(s@.subrange(i1 as int, j2 as int) == "null,\"amount\":\""@);
                assert forall|t: int| 0 <= t < 4 implies s@.subrange(i1 as int, i1 + 4)[t]
                    == "null"@[t] by {
                    assert(s@.subrange(i1 as int, i1 + 4)[t] == s@[i1 + t]);
                    assert(s@.subrange(i1 as int, j2 as int)[t] == s@[i1 + t]);
                    assert(("null"@ + lamt)[t] == "null"@[t]);
                }
                assert(s@.subrange(i1 as int, i1 + 4) =~= "null"@);
                assert forall|t: int| 0 <= t < 11 implies s@.subrange(i1 + 4, j2 as int)[t]
                    == lamt[t] by {
                    assert(s@.subrange(i1 + 4, j2 as int)[t] == s@[i1 + 4 + t]);
                    assert(s@.subrange(i1 as int, j2 as int)[4 + t] == s@[i1 + 4 + t]);
                    assert(("null"@ + lamt)[4 + t] == lamt[t]);
                }
                assert(s@.subrange(i1 + 4, j2 as int) =~= lamt);
                assert(s@ =~= encr(Option::None, v));
            }
            return Option::Some(m);
        },
        Option::None => {},
    }
    // recipient must be a quoted string
    let j2 = match expect_lit(s, i1, "\"") {
        Option::Some(j2) => j2,
        Option::None => {
            proof {
                assert forall|rec: Option<Seq<char>>, a: u128| s@ != #[trigger] encr(rec, a) by {
                    if s@ == encr(rec, a) {
                        match rec {
                            Option::None => {
                                assert(s@.subrange(i1 as int, i1 + 15) =~= "null,\"amount\":\""@);
                                assert(false);
                            },
                            Option::Some(b) => {
                                assert(s@.subrange(i1 as int, i1 + 1) =~= "\""@);
                                assert(false);
                            },
                        }
                    }
                }
            }
            return Option::None;
        },
    };
    let (body, j3) = match scan_string_body(s, j2) {
        Option::Some(p) => p,
        Option::None => {
            proof {
                assert forall|rec: Option<Seq<char>>, a: u128| s@ != #[trigger] encr(rec, a) by {
                    if s@ == encr(rec, a) {
                        match rec {
                            Option::None => {
                                assert(s@.subrange(i1 as int, i1 + 15) =~= "null,\"amount\":\""@);
                                assert(false);
                            },
                            Option::Some(b) => {
                                assert(s@.subrange(j2 as int, j2 + esc(b).len()) =~= esc(b));
                                assert(s@[j2 + esc(b).len()] == '"');
                                assert(false);
                            },
                        }
                    }
                }
            }
            return Option::None;
        },
    };
    proof {
        assert forall|rec: Option<Seq<char>>, a: u128| s@ == #[trigger] encr(rec, a)
            implies rec == Option::Some(body@) && j3 == j2 + esc(body@).len() by {
            match rec {
                Option::None => {
                    assert(s@.subrange(i1 as int, i1 + 15) =~= "null,\"amount\":\""@);
                    assert(false);
                },
                Option::Some(b) => {
                    assert(s@.subrange(j2 as int, j2 + esc(b).len()) =~= esc(b));
                    assert(s@[j2 + esc(b).len()] == '"');
                    lemma_esc_region_unique(s@, j2 as int, body@, j3 as int, b, j2 + esc(b).len());
                },
            }
        }
    }
    let j4 = match expect_lit(s, j3, "\",\"amount\":\"") {
        Option::Some(j4) => j4,
        Option::None => {
            proof {
                assert forall|rec: Option<Seq<char>>, a: u128| s@ != #[trigger] encr(rec, a) by {
                    if s@ == encr(rec, a) {
                        assert(s@.subrange(j3 as int, j3 + 12) =~= "\",\"amount\":\""@);
                        assert(false);
                    }
                }
            }
            return Option::None;
        },
    };
    let (v, j5) = match scan_u128(s, j4) {
        Option::Some(p) => p,
        Option::None => {
            proof {
                assert forall|rec: Option<Seq<char>>, a: u128| s@ != #[trigger] encr(rec, a) by {
                    if s@ == encr(rec, a) {
                        let d = dec_digits(a as nat);
                        assert(s@.subrange(j4 as int, j4 + d.len()) =~= d);
                        assert(s@[j4 + d.len()] == '"');
                        assert(false);
                    }
                }
            }
            return Option::None;
        },
    };
    proof {
        assert forall|rec: Option<Seq<char>>, a: u128| s@ == #[trigger] encr(rec, a)
            implies a == v && j4 + dec_digits(a as nat).len() == j5 by {
            let d = dec_digits(a as nat);
            assert(s@.subrange(j4 as int, j4 + d.len()) =~= d);
            assert(s@[j4 + d.len()] == '"');
            lemma_dec_region_unique(s@, j4 as int, v as nat, j5 as int, a as nat, j4 + d.len());
        }
    }
    let j6 = match expect_lit(s, j5, "\"}}") {
        Option::Some(j6) => j6,
        Option::None => {
            proof {
                assert forall|rec: Option<Seq<char>>, a: u128| s@ != #[trigger] encr(rec, a) by {
                    if s@ == encr(rec, a) {
                        assert(s@.subrange(j5 as int, j5 + 3) =~= "\"}}"@);
                        assert(false);
                    }
                }
            }
            return Option::None;
        },
    };
    if j6 != sl {
        proof {
            assert forall|rec: Option<Seq<char>>, a: u128| s@ != #[trigger] encr(rec, a) by {
                if s@ == encr(rec, a) {
                    assert(s@.len() == j5 + 3);
                    assert(false);
                }
            }
        }
        return Option::None;
    }
    let m = ExecuteMsg::Redeem { recipient: Option::Some(body), amount: v };
    proof {
        assert(s@ =~= s@.subrange(0, i1 as int) + (s@.subrange(i1 as int, j2 as int)
            + (s@.subrange(j2 as int, j3 as int) + (s@.subrange(j3 as int, j3 + 1) + (s@.subrange(
            j3 + 1,
            j4 as int,
        ) + (s@.subrange(j4 as int, j5 as int) + s@.subrange(j5 as int, j6 as int)))))));
        assert(s@.subrange(j3 as int, j4 as int) == "\",\"amount\":\""@);
        assert(s@.subrange(j3 as int, j3 + 1) =~= seq!['"']) by {
            assert(s@.subrange(j3 as int, j3 + 1)[0] == s@[j3 as int]);
            assert(s@.subrange(j3 as int, j4 as int)[0] == s@[j3 as int]);
            assert((seq!['"'] + lamt)[0] == '"');
        }
        assert forall|t: int| 0 <= t < 11 implies s@.subrange(j3 + 1, j4 as int)[t] == lamt[t] by {
            assert(s@.subrange(j3 + 1, j4 as int)[t] == s@[j3 + 1 + t]);
            assert(s@.subrange(j3 as int, j4 as int)[1 + t] == s@[j3 + 1 + t]);
            assert((seq!['"'] + lamt)[1 + t] == lamt[t]);
        }
        assert(s@.subrange(j3 + 1, j4 as int) =~= lamt);
        assert(s@ =~= encr(Option::Some(body@), v));
    }
    Option::Some(m)
}

fn try_ext_exec(s: &str) -> (r: Option<ExecuteMsg>)
    ensures
        r matches Some(m) ==> s@ == enc_exec(m@),
        r is None ==> forall|p: Seq<char>|
            s@ != enc_exec(
                ExecuteMsgView::VaultExtension(ExtensionExecuteMsgView::Keeper(p)),
            ) && s@ != enc_exec(
                ExecuteMsgView::VaultExtension(ExtensionExecuteMsgView::Lockup(p)),
            ),
{
    match try_str_obj(s, "{\"vault_extension\":{\"keeper\":\"") {
        Option::Some(b) => {
            proof {
                lemma_ext_exec_full(ExtensionExecuteMsgView::Keeper(b@));
            }
            return Option::Some(
                ExecuteMsg::VaultExtension(ExtensionExecuteMsg::Keeper(b)),
            );
        },
        Option::None => {},
    }
    match try_str_obj(s, "{\"vault_extension\":{\"lockup\":\"") {
        Option::Some(b) => {
            proof {
                lemma_ext_exec_full(ExtensionExecuteMsgView::Lockup(b@));
            }
            return Option::Some(
                ExecuteMsg::VaultExtension(ExtensionExecuteMsg::Lockup(b)),
            );
        },
        Option::None => {},
    }
    proof {
        assert forall|p: Seq<char>| s@ != enc_exec(
            ExecuteMsgView::VaultExtension(ExtensionExecuteMsgView::Keeper(p)),
        ) && s@ != enc_exec(
            ExecuteMsgView::VaultExtension(ExtensionExecuteMsgView::Lockup(p)),
        ) by {
            lemma_ext_exec_full(ExtensionExecuteMsgView::Keeper(p));
            lemma_ext_exec_full(ExtensionExecuteMsgView::Lockup(p));
        }
    }
    Option::None
}

/// Decode a command from its canonical wire form. Exactly the canonical
/// encodings are accepted: any accepted input re-encodes to itself, and
/// the canonical encoding of every well-formed message is accepted and
/// decodes to that message. Together with `execute_msg_to_json`, this is
/// the round-trip law for commands.
pub fn execute_msg_from_json(s: &str) -> (r: Option<ExecuteMsg>)
    ensures
        r matches Some(m) ==> s@ == enc_exec(m@),
        forall|mv: ExecuteMsgView| s@ == enc_exec(mv) ==> (r matches Some(m) && m@ == mv),
{
    match try_deposit(s) {
        Option::Some(m) => {
            proof {
                assert forall|mv: ExecuteMsgView| s@ == enc_exec(mv) implies m@ == mv by {
                    lemma_enc_exec_inj(m@, mv);
                }
            }
            return Option::Some(m);
        },
        Option::None => {},
    }
    match try_redeem(s) {
        Option::Some(m) => {
            proof {
                assert forall|mv: ExecuteMsgView| s@ == enc_exec(mv) implies m@ == mv by {
                    lemma_enc_exec_inj(m@, mv);
                }
            }
            return Option::Some(m);
        },
        Option::None => {},
    }
    match try_ext_exec(s) {
        Option::Some(m) => {
            proof {
                assert forall|mv: ExecuteMsgView| s@ == enc_exec(mv) implies m@ == mv by {
                    lemma_enc_exec_inj(m@, mv);
                }
            }
            return Option::Some(m);
        },
        Option::None => {},
    }
    proof {
        assert forall|mv: ExecuteMsgView| s@ != enc_exec(mv) by {
            if s@ == enc_exec(mv) {
                match mv {
                    ExecuteMsgView::Deposit { amount, recipient } => {
                        assert(false);
                    },
                    ExecuteMsgView::Redeem { recipient, amount } => {
                        assert(false);
                    },
                    ExecuteMsgView::VaultExtension(e) => {
                        match e {
                            ExtensionExecuteMsgView::Keeper(p) => {
                                assert(false);
                            },
                            ExtensionExecuteMsgView::Lockup(p) => {
                                assert(false);
                            },
                        }
                    },
                }
            }
        }
    }
    Option::None
}

} // verus!

verus! {

/// Both extension query variants encode as one literal head, the
/// escaped payload, and a closing `"}}`.
proof fn lemma_ext_query_full(e: ExtensionQueryMsgView)
    ensures
        e matches ExtensionQueryMsgView::Keeper(p) ==> enc_query(
            QueryMsgView::VaultExtension(e),
        ) == "{\"vault_extension\":{\"keeper\":\""@ + (esc(p) + "\"}}"@),
        e matches ExtensionQueryMsgView::Lockup(p) ==> enc_query(
            QueryMsgView::VaultExtension(e),
        ) == "{\"vault_extension\":{\"lockup\":\""@ + (esc(p) + "\"}}"@),
{
    reveal_strlit("{\"vault_extension\":");
    reveal_strlit("{\"keeper\":\"");
    reveal_strlit("{\"lockup\":\"");
    reveal_strlit("{\"vault_extension\":{\"keeper\":\"");
    reveal_strlit("{\"vault_extension\":{\"lockup\":\"");
    reveal_strlit("\"}");
    reveal_strlit("}");
    reveal_strlit("\"}}");
    match e {
        ExtensionQueryMsgView::Keeper(p) => {
            assert(enc_query(QueryMsgView::VaultExtension(e))
                =~= "{\"vault_extension\":{\"keeper\":\""@ + (esc(p) + "\"}}"@));
        },
        ExtensionQueryMsgView::Lockup(p) => {
            assert(enc_query(QueryMsgView::VaultExtension(e))
                =~= "{\"vault_extension\":{\"lockup\":\""@ + (esc(p) + "\"}}"@));
        },
    }
}

spec fn query_disc(m: QueryMsgView) -> int {
    match m {
        QueryMsgView::Info => 0,
        QueryMsgView::PreviewDeposit { .. } => 1,
        QueryMsgView::PreviewRedeem { .. } => 2,
        QueryMsgView::MaxDeposit { .. } => 3,
        QueryMsgView::MaxRedeem { .. } => 4,
        QueryMsgView::TotalAssets => 5,
        QueryMsgView::TotalVaultTokenSupply => 6,
        QueryMsgView::ConvertToShares { .. } => 7,
        QueryMsgView::ConvertToAssets { .. } => 8,
        QueryMsgView::VaultStandardInfo => 9,
        QueryMsgView::VaultExtension(e) => match e {
            ExtensionQueryMsgView::Keeper(_) => 10,
            ExtensionQueryMsgView::Lockup(_) => 11,
        },
    }
}

spec fn query_code(s: Seq<char>) -> int {
    if s[2] == 'i' {
        0
    } else if s[2] == 'p' {
        if s[10] == 'd' {
            1
        } else {
            2
        }
    } else if s[2] == 'm' {
        if s[6] == 'd' {
            3
        } else {
            4
        }
    } else if s[2] == 't' {
        if s[8] == 'a' {
            5
        } else {
            6
        }
    } else if s[2] == 'c' {
        if s[13] == 's' {
            7
        } else {
            8
        }
    } else if s[8] == 's' {
        9
    } else if s[21] == 'k' {
        10
    } else {
        11
    }
}

/// The wire form of a query determines its variant at a few fixed
/// character positions.
proof fn lemma_query_code(m: QueryMsgView)
    ensures
        query_code(enc_query(m)) == query_disc(m),
{
    reveal_strlit("{\"vault_standard_info\":{}}");
    reveal_strlit("{\"info\":{}}");
    reveal_strlit("{\"preview_deposit\":{\"amount\":\"");
    reveal_strlit("{\"preview_redeem\":{\"amount\":\"");
    reveal_strlit("{\"max_deposit\":{\"recipient\":\"");
    reveal_strlit("{\"max_redeem\":{\"owner\":\"");
    reveal_strlit("{\"total_assets\":{}}");
    reveal_strlit("{\"total_vault_token_supply\":{}}");
    reveal_strlit("{\"convert_to_shares\":{\"amount\":\"");
    reveal_strlit("{\"convert_to_assets\":{\"amount\":\"");
    reveal_strlit("{\"vault_extension\":{\"keeper\":\"");
    reveal_strlit("{\"vault_extension\":{\"lockup\":\"");
    let s = enc_query(m);
    match m {
        QueryMsgView::VaultStandardInfo => {
            assert(s[2] == 'v' && s[8] == 's');
        },
        QueryMsgView::Info => {
            assert(s[2] == 'i');
        },
        QueryMsgView::PreviewDeposit { amount } => {
            assert(s[2] == "{\"preview_deposit\":{\"amount\":\""@[2]);
            assert(s[10] == "{\"preview_deposit\":{\"amount\":\""@[10]);
        },
        QueryMsgView::PreviewRedeem { amount } => {
            assert(s[2] == "{\"preview_redeem\":{\"amount\":\""@[2]);
            assert(s[10] == "{\"preview_redeem\":{\"amount\":\""@[10]);
        },
        QueryMsgView::MaxDeposit { recipient } => {
            assert(s[2] == "{\"max_deposit\":{\"recipient\":\""@[2]);
            assert(s[6] == "{\"max_deposit\":{\"recipient\":\""@[6]);
        },
        QueryMsgView::MaxRedeem { owner } => {
            assert(s[2] == "{\"max_redeem\":{\"owner\":\""@[2]);
            assert(s[6] == "{\"max_redeem\":{\"owner\":\""@[6]);
        },
        QueryMsgView::TotalAssets => {
            assert(s[2] == 't' && s[8] == 'a');
        },
        QueryMsgView::TotalVaultTokenSupply => {
            assert(s[2] == 't' && s[8] == 'v');
        },
        QueryMsgView::ConvertToShares { amount } => {
            assert(s[2] == "{\"convert_to_shares\":{\"amount\":\""@[2]);
            assert(s[13] == "{\"convert_to_shares\":{\"amount\":\""@[13]);
        },
        QueryMsgView::ConvertToAssets { amount } => {
            assert(s[2] == "{\"convert_to_assets\":{\"amount\":\""@[2]);
            assert(s[13] == "{\"convert_to_assets\":{\"amount\":\""@[13]);
        },
        QueryMsgView::VaultExtension(e) => {
            lemma_ext_query_full(e);
            match e {
                ExtensionQueryMsgView::Keeper(p) => {
                    assert(s[2] == "{\"vault_extension\":{\"keeper\":\""@[2]);
                    assert(s[8] == "{\"vault_extension\":{\"keeper\":\""@[8]);
                    assert(s[21] == "{\"vault_extension\":{\"keeper\":\""@[21]);
                },
                ExtensionQueryMsgView::Lockup(p) => {
                    assert(s[2] == "{\"vault_extension\":{\"lockup\":\""@[2]);
                    assert(s[8] == "{\"vault_extension\":{\"lockup\":\""@[8]);
                    assert(s[21] == "{\"vault_extension\":{\"lockup\":\""@[21]);
                },
            }
        },
    }
}

/// Canonical encodings are injective on well-formed queries.
pub proof fn lemma_enc_query_inj(a: QueryMsgView, b: QueryMsgView)
    requires
        enc_query(a) == enc_query(b),
    ensures
        a == b,
{
    reveal_strlit("{\"preview_deposit\":{\"amount\":\"");
    reveal_strlit("{\"preview_redeem\":{\"amount\":\"");
    reveal_strlit("{\"max_deposit\":{\"recipient\":\"");
    reveal_strlit("{\"max_redeem\":{\"owner\":\"");
    reveal_strlit("{\"convert_to_shares\":{\"amount\":\"");
    reveal_strlit("{\"convert_to_assets\":{\"amount\":\"");
    reveal_strlit("{\"vault_extension\":{\"keeper\":\"");
    reveal_strlit("{\"vault_extension\":{\"lockup\":\"");
    reveal_strlit("\"}}");
    reveal_strlit("}}");
    lemma_query_code(a);
    lemma_query_code(b);
    assert("\"}}"@ =~= seq!['"'] + "}}"@);
    match a {
        QueryMsgView::VaultStandardInfo => {
            match b {
                QueryMsgView::VaultStandardInfo => {},
                _ => {
                    assert(false);
                },
            }
        },
        QueryMsgView::Info => {
            match b {
                QueryMsgView::Info => {},
                _ => {
                    assert(false);
                },
            }
        },
        QueryMsgView::TotalAssets => {
            match b {
                QueryMsgView::TotalAssets => {},
                _ => {
                    assert(false);
                },
            }
        },
        QueryMsgView::TotalVaultTokenSupply => {
            match b {
                QueryMsgView::TotalVaultTokenSupply => {},
                _ => {
                    assert(false);
                },
            }
        },
        QueryMsgView::PreviewDeposit { amount: a1 } => {
            match b {
                QueryMsgView::PreviewDeposit { amount: a2 } => {
                    lemma_cancel_left(
                        "{\"preview_deposit\":{\"amount\":\""@,
                        dec_digits(a1 as nat) + "\"}}"@,
                        dec_digits(a2 as nat) + "\"}}"@,
                    );
                    lemma_dec_unique(a1 as nat, a2 as nat, "\"}}"@, "\"}}"@);
                },
                _ => {
                    assert(false);
                },
            }
        },
        QueryMsgView::PreviewRedeem { amount: a1 } => {
            match b {
                QueryMsgView::PreviewRedeem { amount: a2 } => {
                    lemma_cancel_left(
                        "{\"preview_redeem\":{\"amount\":\""@,
                        dec_digits(a1 as nat) + "\"}}"@,
                        dec_digits(a2 as nat) + "\"}}"@,
                    );
                    lemma_dec_unique(a1 as nat, a2 as nat, "\"}}"@, "\"}}"@);
                },
                _ => {
                    assert(false);
                },
            }
        },
        QueryMsgView::ConvertToShares { amount: a1 } => {
            match b {
                QueryMsgView::ConvertToShares { amount: a2 } => {
                    lemma_cancel_left(
                        "{\"convert_to_shares\":{\"amount\":\""@,
                        dec_digits(a1 as nat) + "\"}}"@,
                        dec_digits(a2 as nat) + "\"}}"@,
                    );
                    lemma_dec_unique(a1 as nat, a2 as nat, "\"}}"@, "\"}}"@);
                },
                _ => {
                    assert(false);
                },
            }
        },
        QueryMsgView::ConvertToAssets { amount: a1 } => {
            match b {
                QueryMsgView::ConvertToAssets { amount: a2 } => {
                    lemma_cancel_left(
                        "{\"convert_to_assets\":{\"amount\":\""@,
                        dec_digits(a1 as nat) + "\"}}"@,
                        dec_digits(a2 as nat) + "\"}}"@,
                    );
                    lemma_dec_unique(a1 as nat, a2 as nat, "\"}}"@, "\"}}"@);
                },
                _ => {
                    assert(false);
                },
            }
        },
        QueryMsgView::MaxDeposit { recipient: s1 } => {
            match b {
                QueryMsgView::MaxDeposit { recipient: s2 } => {
                    lemma_cancel_left(
                        "{\"max_deposit\":{\"recipient\":\""@,
                        esc(s1) + "\"}}"@,
                        esc(s2) + "\"}}"@,
                    );
                    assert(esc(s1) + "\"}}"@ =~= esc(s1) + (seq!['"'] + "}}"@));
                    assert(esc(s2) + "\"}}"@ =~= esc(s2) + (seq!['"'] + "}}"@));
                    lemma_esc_ext(s1, seq!['"'] + "}}"@, s2, seq!['"'] + "}}"@);
                },
                _ => {
                    assert(false);
                },
            }
        },
        QueryMsgView::MaxRedeem { owner: s1 } => {
            match b {
                QueryMsgView::MaxRedeem { owner: s2 } => {
                    lemma_cancel_left(
                        "{\"max_redeem\":{\"owner\":\""@,
                        esc(s1) + "\"}}"@,
                        esc(s2) + "\"}}"@,
                    );
                    assert(esc(s1) + "\"}}"@ =~= esc(s1) + (seq!['"'] + "}}"@));
                    assert(esc(s2) + "\"}}"@ =~= esc(s2) + (seq!['"'] + "}}"@));
                    lemma_esc_ext(s1, seq!['"'] + "}}"@, s2, seq!['"'] + "}}"@);
                },
                _ => {
                    assert(false);
                },
            }
        },
        QueryMsgView::VaultExtension(e1) => {
            match b {
                QueryMsgView::VaultExtension(e2) => {
                    lemma_ext_query_full(e1);
                    lemma_ext_query_full(e2);
                    match (e1, e2) {
                        (ExtensionQueryMsgView::Keeper(p1), ExtensionQueryMsgView::Keeper(p2)) => {
                            lemma_cancel_left(
                                "{\"vault_extension\":{\"keeper\":\""@,
                                esc(p1) + "\"}}"@,
                                esc(p2) + "\"}}"@,
                            );
                            assert(esc(p1) + "\"}}"@ =~= esc(p1) + (seq!['"'] + "}}"@));
                            assert(esc(p2) + "\"}}"@ =~= esc(p2) + (seq!['"'] + "}}"@));
                            lemma_esc_ext(p1, seq!['"'] + "}}"@, p2, seq!['"'] + "}}"@);
                        },
                        (ExtensionQueryMsgView::Lockup(p1), ExtensionQueryMsgView::Lockup(p2)) => {
                            lemma_cancel_left(
                                "{\"vault_extension\":{\"lockup\":\""@,
                                esc(p1) + "\"}}"@,
                                esc(p2) + "\"}}"@,
                            );
                            assert(esc(p1) + "\"}}"@ =~= esc(p1) + (seq!['"'] + "}}"@));
                            assert(esc(p2) + "\"}}"@ =~= esc(p2) + (seq!['"'] + "}}"@));
                            lemma_esc_ext(p1, seq!['"'] + "}}"@, p2, seq!['"'] + "}}"@);
                        },
                        _ => {
                            assert(false);
                        },
                    }
                },
                _ => {
                    assert(false);
                },
            }
        },
    }
}

/// Decode a query from its canonical wire form; the counterpart of
/// `query_msg_to_json` in the round-trip law for queries.
pub fn query_msg_from_json(s: &str) -> (r: Option<QueryMsg>)
    ensures
        r matches Some(m) ==> s@ == enc_query(m@),
        forall|mv: QueryMsgView| s@ == enc_query(mv) ==> (r matches Some(m) && m@ == mv),
{
    if try_unit(s, "{\"vault_standard_info\":{}}") {
        let m = QueryMsg::VaultStandardInfo {};
        proof {
            assert forall|mv: QueryMsgView| s@ == enc_query(mv) implies m@ == mv by {
                lemma_enc_query_inj(m@, mv);
            }
        }
        return Option::Some(m);
    }
    if try_unit(s, "{\"info\":{}}") {
        let m = QueryMsg::Info {};
        proof {
            assert forall|mv: QueryMsgView| s@ == enc_query(mv) implies m@ == mv by {
                lemma_enc_query_inj(m@, mv);
            }
        }
        return Option::Some(m);
    }
    if try_unit(s, "{\"total_assets\":{}}") {
        let m = QueryMsg::TotalAssets {};
        proof {
            assert forall|mv: QueryMsgView| s@ == enc_query(mv) implies m@ == mv by {
                lemma_enc_query_inj(m@, mv);
            }
        }
        return Option::Some(m);
    }
    if try_unit(s, "{\"total_vault_token_supply\":{}}") {
        let m = QueryMsg::TotalVaultTokenSupply {};
        proof {
            assert forall|mv: QueryMsgView| s@ == enc_query(mv) implies m@ == mv by {
                lemma_enc_query_inj(m@, mv);
            }
        }
        return Option::Some(m);
    }
    match try_amount_obj(s, "{\"preview_deposit\":{\"amount\":\"") {
        Option::Some(v) => {
            let m = QueryMsg::PreviewDeposit { amount: v };
            proof {
                assert forall|mv: QueryMsgView| s@ == enc_query(mv) implies m@ == mv by {
                    lemma_enc_query_inj(m@, mv);
                }
            }
            return Option::Some(m);
        },
        Option::None => {},
    }
    match try_amount_obj(s, "{\"preview_redeem\":{\"amount\":\"") {
        Option::Some(v) => {
            let m = QueryMsg::PreviewRedeem { amount: v };
            proof {
                assert forall|mv: QueryMsgView| s@ == enc_query(mv) implies m@ == mv by {
                    lemma_enc_query_inj(m@, mv);
                }
            }
            return Option::Some(m);
        },
        Option::None => {},
    }
    match try_amount_obj(s, "{\"convert_to_shares\":{\"amount\":\"") {
        Option::Some(v) => {
            let m = QueryMsg::ConvertToShares { amount: v };
            proof {
                assert forall|mv: QueryMsgView| s@ == enc_query(mv) implies m@ == mv by {
                    lemma_enc_query_inj(m@, mv);
                }
            }
            return Option::Some(m);
        },
        Option::None => {},
    }
    match try_amount_obj(s, "{\"convert_to_assets\":{\"amount\":\"") {
        Option::Some(v) => {
            let m = QueryMsg::ConvertToAssets { amount: v };
            proof {
                assert forall|mv: QueryMsgView| s@ == enc_query(mv) implies m@ == mv by {
                    lemma_enc_query_inj(m@, mv);
                }
            }
            return Option::Some(m);
        },
        Option::None => {},
    }
    match try_str_obj(s, "{\"max_deposit\":{\"recipient\":\"") {
        Option::Some(b) => {
            let m = QueryMsg::MaxDeposit { recipient: b };
            proof {
                assert forall|mv: QueryMsgView| s@ == enc_query(mv) implies m@ == mv by {
                    lemma_enc_query_inj(m@, mv);
                }
            }
            return Option::Some(m);
        },
        Option::None => {},
    }
    match try_str_obj(s, "{\"max_redeem\":{\"owner\":\"") {
        Option::Some(b) => {
            let m = QueryMsg::MaxRedeem { owner: b };
            proof {
                assert forall|mv: QueryMsgView| s@ == enc_query(mv) implies m@ == mv by {
                    lemma_enc_query_inj(m@, mv);
                }
            }
            return Option::Some(m);
        },
        Option::None => {},
    }
    match try_str_obj(s, "{\"vault_extension\":{\"keeper\":\"") {
        Option::Some(b) => {
            let m = QueryMsg::VaultExtension(ExtensionQueryMsg::Keeper(b));
            proof {
                lemma_ext_query_full(ExtensionQueryMsgView::Keeper(b@));
                assert forall|mv: QueryMsgView| s@ == enc_query(mv) implies m@ == mv by {
                    lemma_enc_query_inj(m@, mv);
                }
            }
            return Option::Some(m);
        },
        Option::None => {},
    }
    match try_str_obj(s, "{\"vault_extension\":{\"lockup\":\"") {
        Option::Some(b) => {
            let m = QueryMsg::VaultExtension(ExtensionQueryMsg::Lockup(b));
            proof {
                lemma_ext_query_full(ExtensionQueryMsgView::Lockup(b@));
                assert forall|mv: QueryMsgView| s@ == enc_query(mv) implies m@ == mv by {
                    lemma_enc_query_inj(m@, mv);
                }
            }
            return Option::Some(m);
        },
        Option::None => {},
    }
    proof {
        assert forall|mv: QueryMsgView| s@ != enc_query(mv) by {
            if s@ == enc_query(mv) {
                match mv {
                    QueryMsgView::VaultStandardInfo => {
                        assert(false);
                    },
                    QueryMsgView::Info => {
                        assert(false);
                    },
                    QueryMsgView::TotalAssets => {
                        assert(false);
                    },
                    QueryMsgView::TotalVaultTokenSupply => {
                        assert(false);
                    },
                    QueryMsgView::PreviewDeposit { amount } => {
                        assert(false);
                    },
                    QueryMsgView::PreviewRedeem { amount } => {
                        assert(false);
                    },
                    QueryMsgView::ConvertToShares { amount } => {
                        assert(false);
                    },
                    QueryMsgView::ConvertToAssets { amount } => {
                        assert(false);
                    },
                    QueryMsgView::MaxDeposit { recipient } => {
                        assert(false);
                    },
                    QueryMsgView::MaxRedeem { owner } => {
                        assert(false);
                    },
                    QueryMsgView::VaultExtension(e) => {
                        lemma_ext_query_full(e);
                        match e {
                            ExtensionQueryMsgView::Keeper(p) => {
                                assert(false);
                            },
                            ExtensionQueryMsgView::Lockup(p) => {
                                assert(false);
                            },
                        }
                    },
                }
            }
        }
    }
    Option::None
}

} // verus!
