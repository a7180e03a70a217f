use crate::decimal::Decimal;
use crate::decimal::digit_or_dot;
use crate::decimal::lemma_format_chars;
use crate::decimal::lemma_format_parse_round_trip;
use crate::decimal::parse_decimal;
use crate::decimal::spec_parse_decimal;
use crate::digits::push_char;
use crate::payload::CashOut;
use crate::payload::Item;
use crate::payload::Root;
use crate::payload::esc_char;
use crate::payload::hex_char;
use crate::payload::json_escape;
use crate::payload::lemma_json_escape_concat;
use crate::payload::spec_item_json;
use crate::payload::spec_items_json;
use crate::payload::spec_root_json;
use vstd::prelude::*;

verus! {

proof fn lemma_hex_char_inj(a: nat, b: nat)
    requires
        a < 16,
        b < 16,
        hex_char(a) == hex_char(b),
    ensures
        a == b,
{
}

/// An escape block never begins with a quote; an escaped character's block
/// begins with a backslash, a plain character stands alone.
proof fn lemma_esc_char_head(c: char)
    ensures
        esc_char(c).len() >= 1,
        esc_char(c)[0] != '"',
        c as int >= 0,
        (c as nat) as int == c as int,
        (c == '"' || c == '\\' || (c as int) < 32) ==> esc_char(c)[0] == '\\',
        !(c == '"' || c == '\\' || (c as int) < 32) ==> esc_char(c) == seq![c],
        ((c as int) < 32 && c != '"' && c != '\\') ==> (c as nat) < 32,
{
}

/// The delimiting quote after an escaped string is unambiguous: equal texts
/// split equally into escaped body and remainder.
pub proof fn lemma_escape_quote_split(x: Seq<char>, y: Seq<char>, u: Seq<char>, v: Seq<char>)
    requires
        json_escape(x) + seq!['"'] + u == json_escape(y) + seq!['"'] + v,
    ensures
        x == y,
        u == v,
    decreases x.len(),
{
    let e = json_escape(x) + seq!['"'] + u;
    if x.len() == 0 && y.len() == 0 {
        assert(u =~= v) by {
            assert(json_escape(x).len() == 0 && json_escape(y).len() == 0);
            assert(e.len() == (json_escape(y) + seq!['"'] + v).len());
            assert(u.len() == v.len());
            assert(forall|k: int| 0 <= k < u.len() ==> u[k] == e[k + 1] && v[k] == e[k + 1]);
        }
        assert(x =~= y);
    } else if x.len() == 0 {
        assert(e[0] == '"');
        assert(json_escape(y) == esc_char(y[0]) + json_escape(y.skip(1)));
        lemma_esc_char_head(y[0]);
        assert(e[0] == esc_char(y[0])[0]);
        assert(false);
    } else if y.len() == 0 {
        assert(e[0] == '"');
        assert(json_escape(x) == esc_char(x[0]) + json_escape(x.skip(1)));
        lemma_esc_char_head(x[0]);
        assert(e[0] == esc_char(x[0])[0]);
        assert(false);
    } else {
        let a = x[0];
        let b = y[0];
        assert(json_escape(x) == esc_char(a) + json_escape(x.skip(1)));
        assert(json_escape(y) == esc_char(b) + json_escape(y.skip(1)));
        lemma_esc_char_head(a);
        lemma_esc_char_head(b);
        assert(e[0] == esc_char(a)[0] && e[0] == esc_char(b)[0]);
        let ea = a == '"' || a == '\\' || (a as int) < 32;
        let eb = b == '"' || b == '\\' || (b as int) < 32;
        if !ea && !eb {
            assert(a == e[0] && b == e[0]);
        } else if ea != eb {
            // one block starts with a backslash, the other with a plain
            // character that is not one
            assert(false);
        } else {
            assert(esc_char(a).len() >= 2 && esc_char(b).len() >= 2);
            assert(e[1] == esc_char(a)[1] && e[1] == esc_char(b)[1]);
            if a == '"' || a == '\\' {
                assert(esc_char(a)[1] == a);
                assert(esc_char(b)[1] == 'u' ==> (b as int) < 32);
                assert(b == '"' || b == '\\');
                assert(a == b);
            } else {
                assert((a as int) < 32);
                assert(esc_char(a)[1] == 'u');
                assert(b != '"' && b != '\\');
                assert((b as int) < 32);
                assert((a as nat) < 32);
                assert((b as nat) < 32);
                assert(esc_char(a).len() == 6 && esc_char(b).len() == 6);
                assert(e[4] == esc_char(a)[4] && e[4] == esc_char(b)[4]);
                assert(e[5] == esc_char(a)[5] && e[5] == esc_char(b)[5]);
                assert(esc_char(a)[4] == hex_char((a as nat) / 16));
                assert(esc_char(b)[4] == hex_char((b as nat) / 16));
                assert(esc_char(a)[5] == hex_char((a as nat) % 16));
                assert(esc_char(b)[5] == hex_char((b as nat) % 16));
                assert((a as nat) / 16 < 16 && (b as nat) / 16 < 16);
                lemma_hex_char_inj((a as nat) / 16, (b as nat) / 16);
                lemma_hex_char_inj((a as nat) % 16, (b as nat) % 16);
                assert(a as nat == (a as nat) / 16 * 16 + (a as nat) % 16);
                assert(a as nat == b as nat);
                assert(a as int == b as int);
                assert(a == b);
            }
        }
        assert(a == b);
        let blk = esc_char(a).len() as int;
        assert(json_escape(x.skip(1)) + seq!['"'] + u =~= e.skip(blk));
        assert(json_escape(y.skip(1)) + seq!['"'] + v =~= (json_escape(y) + seq!['"'] + v).skip(
            blk,
        ));
        lemma_escape_quote_split(x.skip(1), y.skip(1), u, v);
        assert(x =~= y) by {
            assert(x.len() == y.len());
            assert forall|k: int| 0 <= k < x.len() implies x[k] == y[k] by {
                if k > 0 {
                    assert(x[k] == x.skip(1)[k - 1]);
                    assert(y[k] == y.skip(1)[k - 1]);
                }
            }
        }
    }
}

/// The boundary after a rendered amount is unambiguous wherever the next
/// character is neither digit nor dot.
pub proof fn lemma_format_split(d1: Decimal, d2: Decimal, u: Seq<char>, v: Seq<char>)
    requires
        d1.wf(),
        d2.wf(),
        d1.spec_format() + u == d2.spec_format() + v,
        u.len() == 0 || !digit_or_dot(u[0]),
        v.len() == 0 || !digit_or_dot(v[0]),
    ensures
        d1 == d2,
        u == v,
{
    lemma_format_chars(d1);
    lemma_format_chars(d2);
    let f1 = d1.spec_format();
    let f2 = d2.spec_format();
    let e = f1 + u;
    if f1.len() < f2.len() {
        let k = f1.len() as int;
        assert(u.len() >= 1);
        assert(e[k] == u[0]);
        assert(e[k] == f2[k]);
        assert(digit_or_dot(f2[k]));
        assert(false);
    } else if f2.len() < f1.len() {
        let k = f2.len() as int;
        assert(v.len() >= 1);
        assert(e[k] == v[0]);
        assert(e[k] == f1[k]);
        assert(digit_or_dot(f1[k]));
        assert(false);
    }
    assert(f1 =~= f2) by {
        assert(forall|k: int| 0 <= k < f1.len() ==> f1[k] == e[k] && f2[k] == e[k]);
    }
    lemma_format_parse_round_trip(d1);
    lemma_format_parse_round_trip(d2);
    assert(spec_parse_decimal(f1) == Some(d1) && spec_parse_decimal(f2) == Some(d2));
    assert(e == f2 + v);
    assert(u =~= v) by {
        assert(e.len() == (f2 + v).len());
        assert(u.len() == v.len());
        assert(forall|k: int| 0 <= k < u.len() ==> u[k] == e[k + f1.len()] && v[k] == e[k
            + f1.len()]);
    }
}

fn str_eq_str(a: &str, b: &str) -> (r: bool)
    ensures
        r == (a@ == b@),
{
    let n = a.unicode_len();
    if n != b.unicode_len() {
        return false;
    }
    let mut i: usize = 0;
    while i < n
        invariant
            n == a@.len() == b@.len(),
            0 <= i <= n,
            forall|j: int| 0 <= j < i ==> a@[j] == b@[j],
        decreases n - i,
    {
        if a.get_char(i) != b.get_char(i) {
            return false;
        }
        i = i + 1;
    }
    proof {
        assert(a@ =~= b@);
    }
    true
}

/// The numeric value of a lower-case hexadecimal digit character.
/// The text at `i` is an escaped string body, its closing quote, and `rest`.
pub open spec fn encodes_string_at(s: Seq<char>, i: int, t: Seq<char>, rest: Seq<char>) -> bool {
    0 <= i <= s.len() && s.subrange(i, s.len() as int) == json_escape(t) + seq!['"'] + rest
}

/// The text at `i` is a rendered amount whose end the following character
/// marks by being neither digit nor dot.
pub open spec fn encodes_decimal_at(s: Seq<char>, i: int, d: Decimal, rest: Seq<char>) -> bool {
    &&& 0 <= i <= s.len()
    &&& d.wf()
    &&& s.subrange(i, s.len() as int) == d.spec_format() + rest
    &&& rest.len() >= 1
    &&& !digit_or_dot(rest[0])
}

fn hex_val(c: char) -> (r: Option<u32>)
    ensures
        r matches Some(v) ==> v < 16 && hex_char(v as nat) == c,
        r is None ==> forall|v: nat| v < 16 ==> hex_char(v) != c,
{
    match c {
        '0' => Some(0),
        '1' => Some(1),
        '2' => Some(2),
        '3' => Some(3),
        '4' => Some(4),
        '5' => Some(5),
        '6' => Some(6),
        '7' => Some(7),
        '8' => Some(8),
        '9' => Some(9),
        'a' => Some(10),
        'b' => Some(11),
        'c' => Some(12),
        'd' => Some(13),
        'e' => Some(14),
        'f' => Some(15),
        _ => None,
    }
}

/// Matches the literal `lit` at position `i` of `s`: succeeds exactly when
/// the literal stands there.
fn expect_lit(s: &str, i: usize, lit: &str) -> (r: Option<usize>)
    ensures
        r matches Some(j) ==> i <= j <= s@.len() && j == i + lit@.len() && s@.subrange(
            i as int,
            j as int,
        ) == lit@,
        r is None ==> !(i + lit@.len() <= s@.len() && s@.subrange(
            i as int,
            i + lit@.len(),
        ) == lit@),
{
    let n = s.unicode_len();
    let m = lit.unicode_len();
    if i > n || m > n - i {
        return None;
    }
    let mut k: usize = 0;
    while k < m
        invariant
            n == s@.len(),
            m == lit@.len(),
            i + m <= n,
            0 <= k <= m,
            forall|t: int| 0 <= t < k ==> s@[i + t] == lit@[t],
        decreases m - k,
    {
        if s.get_char(i + k) != lit.get_char(k) {
            proof {
                if i + lit@.len() <= s@.len() && s@.subrange(i as int, i + lit@.len()) == lit@ {
                    assert(s@.subrange(i as int, i + lit@.len())[k as int] == s@[i + k]);
                    assert(false);
                }
            }
            return None;
        }
        k = k + 1;
    }
    proof {
        assert(s@.subrange(i as int, (i + m) as int) =~= lit@);
    }
    Some(i + m)
}

/// Reads the escaped body of a JSON string starting at `i`, stopping at the
/// first unescaped quote (which is not consumed). Accepts only text the
/// library's own escaper produces: the characters read back re-escape to
/// exactly the consumed bytes.
#[verifier::rlimit(100)]
#[verifier::spinoff_prover]
fn read_string(s: &str, i: usize) -> (r: Option<(String, usize)>)
    ensures
        r matches Some((t, j)) ==> i <= j < s@.len() && s@[j as int] == '"' && s@.subrange(
            i as int,
            j as int,
        ) == json_escape(t@),
        (exists|t: Seq<char>, rest: Seq<char>| encodes_string_at(s@, i as int, t, rest)) ==> r
            is Some,
        forall|t: Seq<char>, rest: Seq<char>|
            (#[trigger] encodes_string_at(s@, i as int, t, rest) && r is Some) ==> {
                let (o, j) = r->Some_0;
                &&& o@ == t
                &&& j as int == i + json_escape(t).len()
                &&& s@.subrange(j as int + 1, s@.len() as int) == rest
            },
{
    let n = s.unicode_len();
    let ghost complete = exists|t: Seq<char>, rest: Seq<char>|
        encodes_string_at(s@, i as int, t, rest);
    let ghost (gt, grest): (Seq<char>, Seq<char>) = if complete {
        choose|t: Seq<char>, rest: Seq<char>| encodes_string_at(s@, i as int, t, rest)
    } else {
        (Seq::empty(), Seq::empty())
    };
    let mut out = String::new();
    let mut j: usize = i;
    if i > n {
        proof {
            if complete {
                assert(encodes_string_at(s@, i as int, gt, grest));
                assert(false);
            }
        }
        return None;
    }
    proof {
        if complete {
            assert(encodes_string_at(s@, i as int, gt, grest));
            assert(gt.skip(0) =~= gt);
        }
    }
    while j < n
        invariant
            n == s@.len(),
            i <= j <= n,
            s@.subrange(i as int, j as int) == json_escape(out@),
            complete == (exists|t: Seq<char>, rest: Seq<char>|
                encodes_string_at(s@, i as int, t, rest)),
            complete ==> encodes_string_at(s@, i as int, gt, grest),
            complete ==> out@.len() <= gt.len() && out@ == gt.subrange(0, out@.len() as int),
            complete ==> s@.subrange(j as int, n as int) == json_escape(
                gt.skip(out@.len() as int),
            ) + seq!['"'] + grest,
        decreases n - j,
    {
        let c = s.get_char(j);
        let ghost tcur = gt.skip(out@.len() as int);
        let ghost suf = s@.subrange(j as int, n as int);
        proof {
            if complete {
                assert(c == suf[0]);
                if tcur.len() > 0 {
                    assert(json_escape(tcur) == esc_char(tcur[0]) + json_escape(tcur.skip(1)));
                    lemma_esc_char_head(tcur[0]);
                    assert(suf[0] == esc_char(tcur[0])[0]);
                }
            }
        }
        if c == '"' {
            proof {
                assert forall|t: Seq<char>, rest: Seq<char>|
                    #[trigger] encodes_string_at(s@, i as int, t, rest) implies (out@ == t && j
                    as int == i + json_escape(t).len() && s@.subrange(j as int + 1, n as int)
                    == rest) by {
                    assert(s@.subrange(i as int, n as int) =~= s@.subrange(i as int, j as int)
                        + s@.subrange(j as int, n as int));
                    assert(s@.subrange(j as int, n as int) =~= seq!['"'] + s@.subrange(
                        j as int + 1,
                        n as int,
                    ));
                    assert(s@.subrange(i as int, n as int) =~= json_escape(out@) + seq!['"']
                        + s@.subrange(j as int + 1, n as int));
                    lemma_escape_quote_split(
                        out@,
                        t,
                        s@.subrange(j as int + 1, n as int),
                        rest,
                    );
                }
            }
            return Some((out, j));
        }
        proof {
            if complete {
                // past the quote check, at least one escape block remains
                if tcur.len() == 0 {
                    assert(suf[0] == '"');
                    assert(false);
                }
                assert(suf.len() == esc_char(tcur[0]).len() + json_escape(tcur.skip(1)).len() + 1
                    + grest.len());
            }
        }
        let ghost out0 = out@;
        let ghost j0 = j;
        if c == '\\' {
            proof {
                if complete {
                    lemma_esc_char_head(tcur[0]);
                    if !(tcur[0] == '"' || tcur[0] == '\\' || (tcur[0] as int) < 32) {
                        assert(esc_char(tcur[0]) == seq![tcur[0]]);
                        assert(c == tcur[0]);
                        assert(false);
                    }
                    assert(esc_char(tcur[0]).len() >= 2);
                }
            }
            if n - j < 2 {
                proof {
                    if complete {
                        assert(false);
                    }
                }
                return None;
            }
            let e = s.get_char(j + 1);
            proof {
                if complete {
                    assert(e == suf[1]);
                    assert(suf[1] == esc_char(tcur[0])[1]);
                }
            }
            if e == '"' {
                proof {
                    if complete {
                        assert(tcur[0] == '"');
                        assert(esc_char(tcur[0]) =~= s@.subrange(j as int, j + 2));
                    }
                }
                push_char(&mut out, '"');
                j = j + 2;
            } else if e == '\\' {
                proof {
                    if complete {
                        assert(tcur[0] == '\\');
                        assert(esc_char(tcur[0]) =~= s@.subrange(j as int, j + 2));
                    }
                }
                push_char(&mut out, '\\');
                j = j + 2;
            } else if e == 'u' {
                proof {
                    if complete {
                        assert(tcur[0] != '"' && tcur[0] != '\\');
                        assert((tcur[0] as int) < 32);
                        assert((tcur[0] as nat) < 32);
                        assert(esc_char(tcur[0]).len() == 6);
                        assert(suf.len() >= 7);
                        assert(suf[2] == esc_char(tcur[0])[2] && suf[3] == esc_char(tcur[0])[3]);
                        assert(suf[4] == esc_char(tcur[0])[4] && suf[5] == esc_char(tcur[0])[5]);
                        assert(s@[j + 2] == '0' && s@[j + 3] == '0');
                        assert(s@[j + 4] == hex_char((tcur[0] as nat) / 16));
                        assert(s@[j + 5] == hex_char((tcur[0] as nat) % 16));
                    }
                }
                if n - j < 6 {
                    proof {
                        if complete {
                            assert(false);
                        }
                    }
                    return None;
                }
                if s.get_char(j + 2) != '0' || s.get_char(j + 3) != '0' {
                    proof {
                        if complete {
                            assert(false);
                        }
                    }
                    return None;
                }
                let h1 = match hex_val(s.get_char(j + 4)) {
                    Some(v) => v,
                    None => {
                        proof {
                            if complete {
                                assert(hex_char((tcur[0] as nat) / 16) != s@[j + 4]);
                                assert(false);
                            }
                        }
                        return None;
                    },
                };
                let h2 = match hex_val(s.get_char(j + 5)) {
                    Some(v) => v,
                    None => {
                        proof {
                            if complete {
                                assert(hex_char((tcur[0] as nat) % 16) != s@[j + 5]);
                                assert(false);
                            }
                        }
                        return None;
                    },
                };
                proof {
                    if complete {
                        lemma_hex_char_inj(h1 as nat, (tcur[0] as nat) / 16);
                        lemma_hex_char_inj(h2 as nat, (tcur[0] as nat) % 16);
                        assert(h1 as nat == (tcur[0] as nat) / 16);
                        assert(h2 as nat == (tcur[0] as nat) % 16);
                    }
                }
                let v: u32 = h1 * 16 + h2;
                if v >= 32 {
                    proof {
                        if complete {
                            assert(v as nat == (tcur[0] as nat));
                            assert(false);
                        }
                    }
                    return None;
                }
                let ch: char = (v as u8) as char;
                proof {
                    assert(ch as int == v as int);
                    assert((v / 16) as nat == h1 as nat && (v % 16) as nat == h2 as nat);
                    assert(esc_char(ch) =~= s@.subrange(j as int, j + 6));
                    if complete {
                        assert(ch as int == tcur[0] as int);
                        assert(ch == tcur[0]);
                    }
                }
                push_char(&mut out, ch);
                j = j + 6;
            } else {
                proof {
                    if complete {
                        assert(false);
                    }
                }
                return None;
            }
        } else {
            proof {
                if complete {
                    lemma_esc_char_head(tcur[0]);
                    if tcur[0] == '"' || tcur[0] == '\\' || (tcur[0] as int) < 32 {
                        assert(esc_char(tcur[0])[0] == '\\');
                        assert(false);
                    }
                    assert(c == tcur[0]);
                    assert((c as int) >= 32);
                }
            }
            let cv = c as u32;
            if cv < 32 {
                proof {
                    if complete {
                        assert(false);
                    }
                }
                return None;
            }
            proof {
                assert(esc_char(c) =~= s@.subrange(j as int, j + 1));
            }
            push_char(&mut out, c);
            j = j + 1;
        }
        proof {
            let ghost added = out@.subrange(out0.len() as int, out@.len() as int);
            assert(out@ =~= out0 + added);
            assert(added.len() == 1);
            lemma_json_escape_concat(out0, added);
            assert(added.skip(1) =~= Seq::<char>::empty());
            assert(json_escape(Seq::<char>::empty()) == Seq::<char>::empty());
            assert(json_escape(added) == esc_char(added[0]) + json_escape(Seq::<char>::empty()));
            assert(esc_char(added[0]) + Seq::<char>::empty() =~= esc_char(added[0]));
            assert(esc_char(added[0]) =~= s@.subrange(j0 as int, j as int));
            assert(s@.subrange(i as int, j as int) =~= s@.subrange(i as int, j0 as int)
                + s@.subrange(j0 as int, j as int));
            assert(s@.subrange(i as int, j as int) == json_escape(out@));
            if complete {
                assert(added[0] == tcur[0]);
                assert(gt[out0.len() as int] == tcur[0]);
                assert(out@ =~= gt.subrange(0, out@.len() as int));
                let blk = esc_char(tcur[0]).len() as int;
                assert(j == j0 + blk);
                assert(tcur.skip(1) =~= gt.skip(out@.len() as int));
                assert(s@.subrange(j0 as int, n as int).skip(blk) =~= s@.subrange(
                    j as int,
                    n as int,
                ));
                assert((json_escape(tcur) + seq!['"'] + grest).skip(blk) =~= json_escape(
                    tcur.skip(1),
                ) + seq!['"'] + grest);
                assert(s@.subrange(j as int, n as int) == json_escape(gt.skip(out@.len() as int))
                    + seq!['"'] + grest);
            }
        }
    }
    proof {
        if complete {
            let tcur = gt.skip(out@.len() as int);
            assert(s@.subrange(j as int, n as int).len() == 0);
            assert((json_escape(tcur) + seq!['"'] + grest).len() >= 1);
            assert(false);
        }
    }
    None
}

/// Reads a canonically rendered amount at `i`: the longest run of digits and
/// dots, accepted only when it parses and renders back to the same bytes.
fn read_decimal(s: &str, i: usize) -> (r: Option<(Decimal, usize)>)
    ensures
        r matches Some((d, j)) ==> d.wf() && i <= j <= s@.len() && s@.subrange(i as int, j as int)
            == d.spec_format(),
        r matches Some((d, j)) ==> (j as int == s@.len() || !digit_or_dot(s@[j as int])),
        (exists|d: Decimal, rest: Seq<char>| encodes_decimal_at(s@, i as int, d, rest)) ==> r
            is Some,
        forall|d: Decimal, rest: Seq<char>|
            (#[trigger] encodes_decimal_at(s@, i as int, d, rest) && r is Some) ==> (r->Some_0.0
                == d && r->Some_0.1 as int == i + d.spec_format().len() && s@.subrange(
                r->Some_0.1 as int,
                s@.len() as int,
            ) == rest),
{
    let n = s.unicode_len();
    let ghost complete = exists|d: Decimal, rest: Seq<char>|
        encodes_decimal_at(s@, i as int, d, rest);
    let ghost (gd, grest): (Decimal, Seq<char>) = if complete {
        choose|d: Decimal, rest: Seq<char>| encodes_decimal_at(s@, i as int, d, rest)
    } else {
        (Decimal { mantissa: 0, scale: 0 }, Seq::empty())
    };
    let ghost flen = gd.spec_format().len() as int;
    proof {
        if complete {
            assert(encodes_decimal_at(s@, i as int, gd, grest));
            lemma_format_chars(gd);
        }
    }
    if i > n {
        proof {
            if complete {
                assert(false);
            }
        }
        return None;
    }
    let mut j: usize = i;
    let mut stop = false;
    while j < n && !stop
        invariant
            n == s@.len(),
            i <= j <= n,
            complete == (exists|d: Decimal, rest: Seq<char>|
                encodes_decimal_at(s@, i as int, d, rest)),
            complete ==> encodes_decimal_at(s@, i as int, gd, grest),
            complete ==> flen == gd.spec_format().len(),
            complete && !stop ==> j <= i + flen,
            complete && stop ==> j == i + flen,
            stop ==> j < n && !digit_or_dot(s@[j as int]),
        decreases n - j + (if stop {
            0int
        } else {
            1int
        }),
    {
        let c = s.get_char(j);
        let cv = c as u32;
        proof {
            if complete {
                lemma_format_chars(gd);
                let suf = s@.subrange(i as int, n as int);
                assert(suf == gd.spec_format() + grest);
                assert(c == suf[j - i]);
                assert('0' as int == 48 && '9' as int == 57);
                if j - i < flen {
                    assert(suf[j - i] == gd.spec_format()[j - i]);
                    assert(digit_or_dot(c));
                } else {
                    assert(suf[j - i] == grest[0]);
                    assert(!digit_or_dot(c));
                }
            }
        }
        if (48 <= cv && cv <= 57) || c == '.' {
            proof {
                if complete {
                    assert(digit_or_dot(c));
                    assert(j - i < flen);
                }
            }
            j = j + 1;
        } else {
            proof {
                assert('0' as int == 48 && '9' as int == 57);
                assert(!digit_or_dot(s@[j as int]));
            }
            stop = true;
        }
    }
    proof {
        if complete {
            // the run cannot hit the end of the text: the delimiter follows
            assert(s@.subrange(i as int, n as int) == gd.spec_format() + grest);
            assert(s@.subrange(i as int, n as int).len() == n - i);
            assert((gd.spec_format() + grest).len() == flen + grest.len());
            assert(i + flen + grest.len() == n);
            assert(stop && j == i + flen);
        }
    }
    if j == i {
        proof {
            if complete {
                assert(false);
            }
        }
        return None;
    }
    let sub = s.substring_char(i, j);
    proof {
        if complete {
            assert(sub@ =~= gd.spec_format());
            lemma_format_parse_round_trip(gd);
        }
    }
    let d = match parse_decimal(sub) {
        Some(d) => d,
        None => {
            proof {
                if complete {
                    assert(false);
                }
            }
            return None;
        },
    };
    let canon = d.format();
    if str_eq_str(sub, canon.as_str()) {
        proof {
            assert(s@.subrange(i as int, j as int) == d.spec_format());
            assert forall|d2: Decimal, rest: Seq<char>|
                #[trigger] encodes_decimal_at(s@, i as int, d2, rest) implies (d == d2 && j as int
                == i + d2.spec_format().len() && s@.subrange(j as int, n as int) == rest) by {
                assert(s@.subrange(i as int, n as int) =~= s@.subrange(i as int, j as int)
                    + s@.subrange(j as int, n as int));
                let u = s@.subrange(j as int, n as int);
                assert(u.len() == 0 || !digit_or_dot(u[0]));
                lemma_format_split(d, d2, u, rest);
            }
        }
        Some((d, j))
    } else {
        proof {
            if complete {
                assert(d == gd);
                assert(canon@ == sub@);
                assert(false);
            }
        }
        None
    }
}


proof fn lemma_subrange_split(s: Seq<char>, a: int, b: int, c: int)
    requires
        0 <= a <= b <= c <= s.len(),
    ensures
        s.subrange(a, c) == s.subrange(a, b) + s.subrange(b, c),
{
    assert(s.subrange(a, c) =~= s.subrange(a, b) + s.subrange(b, c));
}

/// Reads one serialized line item at `i`: whatever is accepted re-serializes
/// to exactly the consumed bytes.
fn read_item(s: &str, i: usize) -> (r: Option<(Item, usize)>)
    ensures
        r matches Some((it, j)) ==> it.wf() && i <= j <= s@.len() && s@.subrange(
            i as int,
            j as int,
        ) == spec_item_json(it),
{
    let j0 = i;
    let j1 = expect_lit(s, j0, "{\"sku_number\":\"")?;
    let (sku, j2) = read_string(s, j1)?;
    let j3 = expect_lit(s, j2, "\",\"category\":\"")?;
    let (category, j4) = read_string(s, j3)?;
    let j5 = expect_lit(s, j4, "\",\"title\":\"")?;
    let (title, j6) = read_string(s, j5)?;
    let j7 = expect_lit(s, j6, "\",\"description\":\"")?;
    let (description, j8) = read_string(s, j7)?;
    let j9 = expect_lit(s, j8, "\",\"unit_price\":")?;
    let (unit_price, j10) = read_decimal(s, j9)?;
    let j11 = expect_lit(s, j10, ",\"quantity\":")?;
    let (q, j12) = read_decimal(s, j11)?;
    if q.scale != 0 || q.mantissa > 127 {
        return None;
    }
    let j13 = expect_lit(s, j12, ",\"unit_measure\":\"")?;
    let (unit_measure, j14) = read_string(s, j13)?;
    let j15 = expect_lit(s, j14, "\",\"total_amount\":")?;
    let (total_amount, j16) = read_decimal(s, j15)?;
    let j17 = expect_lit(s, j16, "}")?;
    let it = Item {
        sku_number: sku,
        category,
        title,
        description,
        unit_price,
        quantity: q.mantissa as i8,
        unit_measure,
        total_amount,
    };
    proof {
        lemma_subrange_split(s@, i as int, j1 as int, j2 as int);
        lemma_subrange_split(s@, i as int, j2 as int, j3 as int);
        lemma_subrange_split(s@, i as int, j3 as int, j4 as int);
        lemma_subrange_split(s@, i as int, j4 as int, j5 as int);
        lemma_subrange_split(s@, i as int, j5 as int, j6 as int);
        lemma_subrange_split(s@, i as int, j6 as int, j7 as int);
        lemma_subrange_split(s@, i as int, j7 as int, j8 as int);
        lemma_subrange_split(s@, i as int, j8 as int, j9 as int);
        lemma_subrange_split(s@, i as int, j9 as int, j10 as int);
        lemma_subrange_split(s@, i as int, j10 as int, j11 as int);
        lemma_subrange_split(s@, i as int, j11 as int, j12 as int);
        lemma_subrange_split(s@, i as int, j12 as int, j13 as int);
        lemma_subrange_split(s@, i as int, j13 as int, j14 as int);
        lemma_subrange_split(s@, i as int, j14 as int, j15 as int);
        lemma_subrange_split(s@, i as int, j15 as int, j16 as int);
        lemma_subrange_split(s@, i as int, j16 as int, j17 as int);
        assert(it.quantity as nat == q.mantissa as nat);
        assert(q.spec_format() == crate::digits::dec_str(it.quantity as nat));
        assert(s@.subrange(i as int, j17 as int) == spec_item_json(it));
    }
    Some((it, j17))
}

/// Reads back an outbound payload. Accepts exactly the serializer's own
/// output: whenever a payload is returned, the input is, byte for byte, that
/// payload's serialization — so an accepted artifact determines the payload
/// it documents.
pub fn decode_root(s: &str) -> (r: Option<Root>)
    ensures
        r matches Some(root) ==> root.wf() && s@ == spec_root_json(root),
{
    let n = s.unicode_len();
    let j1 = expect_lit(s, 0, "{\"external_reference\":\"")?;
    let (external_reference, j2) = read_string(s, j1)?;
    let j3 = expect_lit(s, j2, "\",\"notification_url\":\"")?;
    let (notification_url, j4) = read_string(s, j3)?;
    let j5 = expect_lit(s, j4, "\",\"title\":\"")?;
    let (title, j6) = read_string(s, j5)?;
    let j7 = expect_lit(s, j6, "\",\"description\":\"")?;
    let (description, j8) = read_string(s, j7)?;
    let j9 = expect_lit(s, j8, "\",\"expiration_date\":\"")?;
    let (expiration_date, j10) = read_string(s, j9)?;
    let j11 = expect_lit(s, j10, "\",\"total_amount\":")?;
    let (total_amount, j12) = read_decimal(s, j11)?;
    let j13 = expect_lit(s, j12, ",\"items\":[")?;
    let mut items: Vec<Item> = Vec::new();
    let mut j: usize = j13;
    if j >= n {
        return None;
    }
    if s.get_char(j) != ']' {
        let (first, j14) = read_item(s, j)?;
        items.push(first);
        proof {
            assert(items@ =~= seq![first]);
            assert(spec_items_json(items@) == spec_item_json(first));
        }
        j = j14;
        while j < n && s.get_char(j) == ','
            invariant
                n == s@.len(),
                j13 <= j <= n,
                items@.len() >= 1,
                forall|t: int| 0 <= t < items@.len() ==> items@[t].wf(),
                s@.subrange(j13 as int, j as int) == spec_items_json(items@),
            decreases n - j,
        {
            let ghost ja = j;
            let ghost items0 = items@;
            let jc = j + 1;
            let (next, jn) = read_item(s, jc)?;
            items.push(next);
            j = jn;
            proof {
                reveal_strlit(",");
                assert(s@.subrange(ja as int, jc as int) =~= ","@);
                assert(items@.drop_last() =~= items0);
                assert(items@.last() == next);
                assert(items@.len() >= 2);
                lemma_subrange_split(s@, j13 as int, ja as int, jc as int);
                lemma_subrange_split(s@, j13 as int, jc as int, jn as int);
                assert(s@.subrange(j13 as int, j as int) == spec_items_json(items@));
            }
        }
    } else {
        proof {
            assert(items@ =~= Seq::<Item>::empty());
            assert(s@.subrange(j13 as int, j as int) =~= spec_items_json(items@));
        }
    }
    let j15 = expect_lit(s, j, "],\"cash_out\":{\"amount\":")?;
    let (amount, j16) = read_decimal(s, j15)?;
    let j17 = expect_lit(s, j16, "}}")?;
    if j17 != n {
        return None;
    }
    let root = Root {
        external_reference,
        notification_url,
        title,
        description,
        expiration_date,
        total_amount,
        items,
        cash_out: CashOut { amount },
    };
    proof {
        lemma_subrange_split(s@, 0, j1 as int, j2 as int);
        lemma_subrange_split(s@, 0, j2 as int, j3 as int);
        lemma_subrange_split(s@, 0, j3 as int, j4 as int);
        lemma_subrange_split(s@, 0, j4 as int, j5 as int);
        lemma_subrange_split(s@, 0, j5 as int, j6 as int);
        lemma_subrange_split(s@, 0, j6 as int, j7 as int);
        lemma_subrange_split(s@, 0, j7 as int, j8 as int);
        lemma_subrange_split(s@, 0, j8 as int, j9 as int);
        lemma_subrange_split(s@, 0, j9 as int, j10 as int);
        lemma_subrange_split(s@, 0, j10 as int, j11 as int);
        lemma_subrange_split(s@, 0, j11 as int, j12 as int);
        lemma_subrange_split(s@, 0, j12 as int, j13 as int);
        lemma_subrange_split(s@, 0, j13 as int, j as int);
        lemma_subrange_split(s@, 0, j as int, j15 as int);
        lemma_subrange_split(s@, 0, j15 as int, j16 as int);
        lemma_subrange_split(s@, 0, j16 as int, j17 as int);
        assert(s@.subrange(0, n as int) =~= s@);
        assert(s@ == spec_root_json(root));
    }
    Some(root)
}


} // verus!
