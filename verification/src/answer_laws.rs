//! What holds of every answer that this proxy gives in its own words.
use vstd::prelude::*;

use crate::gate;
use crate::gate::Refusal;
use crate::gate_laws;
use crate::join;
use crate::seqs;
use crate::text;

verus! {

/// The blank line that ends a head, with the line ending in front of it.
pub open spec fn blank() -> Seq<char> {
    seq!['\r', '\n', '\r', '\n']
}

/// The lines of an answer's head.
pub open spec fn answer_lines(status: Seq<char>, body: Seq<char>) -> Seq<Seq<char>> {
    seq![
        "HTTP/1.1 "@ + status,
        "Content-Type: text/plain; charset=utf-8"@,
        "Content-Length: "@ + text::decimal(vstd::utf8::encode_utf8(body).len()),
        "Cache-Control: no-store"@,
        "Connection: close"@,
    ]
}

/// A line in front that is not blank puts the blank line off by as much.
proof fn lemma_blank_is_behind(l: Seq<char>, rest: Seq<char>, at: int)
    requires
        gate_laws::unbroken(l),
        rest.len() > 0,
        rest[0] != '\r',
        seqs::find_seq(rest, blank(), 0) == Some(at),
    ensures
        seqs::find_seq(l + gate::crlf() + rest, blank(), 0) == Some(l.len() + 2 + at),
{
    let s = l + gate::crlf() + rest;
    let n = l.len() as int;
    let b = blank();
    seqs::lemma_find_seq(rest, b, 0);
    assert(s.skip(n + 2) =~= rest);
    assert forall|i: int| 0 <= i < n + 2 + at implies !seqs::occurs_at(s, b, i) by {
        if seqs::occurs_at(s, b, i) {
            assert(s.subrange(i, i + 4) == b);
            assert(s[i] == s.subrange(i, i + 4)[0]);
            assert(s[i + 2] == s.subrange(i, i + 4)[2]);
            if i < n {
                assert(s[i] == l[i]);
            } else if i == n {
                assert(s[i + 2] == rest[0]);
            } else if i == n + 1 {
                assert(s[i] == '\n');
            } else {
                assert(rest.subrange(i - n - 2, i - n + 2) =~= s.subrange(i, i + 4));
                assert(seqs::occurs_at(rest, b, i - n - 2));
            }
        }
    }
    assert(s.subrange(n + 2 + at, n + 6 + at) =~= rest.subrange(at, at + 4));
    assert(seqs::occurs_at(s, b, n + 2 + at));
    seqs::lemma_find_seq_is(s, b, 0, Some(n + 2 + at));
}

/// The last line of a head stands right before the blank line.
proof fn lemma_blank_is_next(l: Seq<char>, body: Seq<char>)
    requires
        gate_laws::unbroken(l),
    ensures
        seqs::find_seq(l + blank() + body, blank(), 0) == Some(l.len() as int),
{
    let s = l + blank() + body;
    let n = l.len() as int;
    let b = blank();
    assert forall|i: int| 0 <= i < n implies !seqs::occurs_at(s, b, i) by {
        if seqs::occurs_at(s, b, i) {
            assert(s[i] == s.subrange(i, i + 4)[0]);
            assert(s[i] == l[i]);
        }
    }
    assert(s.subrange(n, n + 4) =~= b);
    assert(seqs::occurs_at(s, b, n));
    seqs::lemma_find_seq_is(s, b, 0, Some(n));
}

/// An answer's first blank line parts its head from its body. The head is five
/// lines, of which the first gives the status, one the length of the body in
/// bytes, and two say not to keep the answer and not to keep the connection.
pub proof fn law_an_answer_is_parted_by_its_blank_line(status: Seq<char>, body: Seq<char>)
    requires
        gate_laws::unbroken(status),
    ensures
        seqs::split_once_seq(gate::plain_answer(status, body), blank()) == Some(
            (seqs::join(answer_lines(status, body), gate::crlf()), body),
        ),
{
    let lines = answer_lines(status, body);
    let digits = text::decimal(vstd::utf8::encode_utf8(body).len());
    let e = gate::crlf();
    let l0 = lines[0];
    let l1 = lines[1];
    let l2 = lines[2];
    let l3 = lines[3];
    let l4 = lines[4];
    reveal_strlit("HTTP/1.1 ");
    reveal_strlit("Content-Type: text/plain; charset=utf-8");
    reveal_strlit("Content-Length: ");
    reveal_strlit("Cache-Control: no-store");
    reveal_strlit("Connection: close");
    reveal_strlit("\r\nContent-Type: text/plain; charset=utf-8\r\nContent-Length: ");
    reveal_strlit("\r\nCache-Control: no-store\r\nConnection: close\r\n\r\n");
    assert(gate_laws::unbroken(l1));
    assert(gate_laws::unbroken(l3));
    assert(gate_laws::unbroken(l4));
    assert(gate_laws::unbroken(l0)) by {
        assert forall|i: int| 0 <= i < l0.len() implies l0[i] != '\r' && l0[i] != '\n' by {
            if i >= 9 {
                assert(l0[i] == status[i - 9]);
            }
        }
    }
    assert(gate_laws::unbroken(l2)) by {
        text::law_decimal_reads_back(vstd::utf8::encode_utf8(body).len());
        assert forall|i: int| 0 <= i < l2.len() implies l2[i] != '\r' && l2[i] != '\n' by {
            if i >= 16 {
                assert(l2[i] == digits[i - 16]);
                assert(text::is_digit(digits[i - 16]));
            }
        }
    }
    let s4 = l4 + blank() + body;
    let s3 = l3 + e + s4;
    let s2 = l2 + e + s3;
    let s1 = l1 + e + s2;
    let s0 = l0 + e + s1;
    lemma_blank_is_next(l4, body);
    assert(s4[0] == l4[0] && s3[0] == l3[0] && s2[0] == l2[0] && s1[0] == l1[0]);
    let n4: int = l4.len() as int;
    let n3: int = l3.len() + 2 + n4;
    let n2: int = l2.len() + 2 + n3;
    let n1: int = l1.len() + 2 + n2;
    lemma_blank_is_behind(l3, s4, n4);
    lemma_blank_is_behind(l2, s3, n3);
    lemma_blank_is_behind(l1, s2, n2);
    lemma_blank_is_behind(l0, s1, n1);
    let head = l0 + e + l1 + e + l2 + e + l3 + e + l4;
    assert(s0 =~= head + blank() + body);
    assert("\r\nContent-Type: text/plain; charset=utf-8\r\nContent-Length: "@ =~= e + l1 + e
        + "Content-Length: "@);
    assert("\r\nCache-Control: no-store\r\nConnection: close\r\n\r\n"@ =~= e + l3 + e + l4
        + blank());
    assert(gate::plain_answer(status, body) =~= s0);
    assert(s0.take(head.len() as int) =~= head);
    assert(s0.skip(head.len() as int + 4) =~= body);
    lemma_joined_lines(l0, l1, l2, l3, l4, e);
    assert(lines =~= seq![l0, l1, l2, l3, l4]);
}

/// Five lines, joined.
proof fn lemma_joined_lines(
    a: Seq<char>,
    b: Seq<char>,
    c: Seq<char>,
    d: Seq<char>,
    f: Seq<char>,
    e: Seq<char>,
)
    ensures
        seqs::join(seq![a, b, c, d, f], e) == a + e + b + e + c + e + d + e + f,
{
    assert(seq![a, b, c, d, f].drop_last() =~= seq![a, b, c, d]);
    assert(seq![a, b, c, d].drop_last() =~= seq![a, b, c]);
    assert(seq![a, b, c].drop_last() =~= seq![a, b]);
    assert(seq![a, b].drop_last() =~= seq![a]);
    assert(seqs::join(seq![a], e) == a);
    assert(seqs::join(seq![a, b], e) == a + e + b);
    assert(seqs::join(seq![a, b, c], e) == a + e + b + e + c);
    assert(seqs::join(seq![a, b, c, d], e) == a + e + b + e + c + e + d);
}

/// The status of a refusal, as its first line gives it.
pub open spec fn status_text(r: Refusal) -> Seq<char> {
    text::decimal(r.spec_status().0 as nat) + seq![' '] + r.spec_status().1
}

/// A refusal's status is in one line.
proof fn lemma_status_is_unbroken(r: Refusal)
    ensures
        gate_laws::unbroken(status_text(r)),
{
    let digits = text::decimal(r.spec_status().0 as nat);
    let reason = r.spec_status().1;
    let s = status_text(r);
    reveal_strlit("Unauthorized");
    reveal_strlit("Bad Request");
    reveal_strlit("Forbidden");
    text::law_decimal_reads_back(r.spec_status().0 as nat);
    assert(gate_laws::unbroken(reason));
    assert forall|i: int| 0 <= i < s.len() implies s[i] != '\r' && s[i] != '\n' by {
        if i < digits.len() {
            assert(s[i] == digits[i]);
            assert(text::is_digit(digits[i]));
        } else if i > digits.len() {
            assert(s[i] == reason[i - digits.len() - 1]);
        }
    }
}

/// Every refusal looks the same from the outside: a status line, the same four
/// headers, a blank line, and the text that goes with it, declared as long as it
/// is.
pub proof fn law_a_refusal_is_parted_by_its_blank_line(r: Refusal)
    ensures
        seqs::split_once_seq(gate::refusal_text(r), blank()) == Some(
            (seqs::join(answer_lines(status_text(r), r.spec_body()), gate::crlf()), r.spec_body()),
        ),
        ("HTTP/1.1 "@ + status_text(r) + gate::crlf()).is_prefix_of(gate::refusal_text(r)),
        r is NotAuthorized ==> r.spec_status().0 == 401,
{
    let lines = answer_lines(status_text(r), r.spec_body());
    lemma_status_is_unbroken(r);
    law_an_answer_is_parted_by_its_blank_line(status_text(r), r.spec_body());
    let front = "HTTP/1.1 "@ + status_text(r) + gate::crlf();
    reveal_strlit("\r\nContent-Type: text/plain; charset=utf-8\r\nContent-Length: ");
    assert(gate::refusal_text(r).subrange(0, front.len() as int) =~= front);
}

/// Nowhere does the one character stand right before the other.
pub open spec fn apart(s: Seq<char>, a: char, b: char) -> bool {
    forall|i: int| 0 <= i < s.len() - 1 && #[trigger] s[i] == a ==> s[i + 1] != b
}

/// Two texts in which they are apart, put together where they are.
proof fn lemma_apart_concat(s: Seq<char>, t: Seq<char>, a: char, b: char)
    requires
        apart(s, a, b),
        apart(t, a, b),
        s.len() > 0 && t.len() > 0 ==> !(s.last() == a && t[0] == b),
    ensures
        apart(s + t, a, b),
{
    let u = s + t;
    assert forall|i: int| 0 <= i < u.len() - 1 && #[trigger] u[i] == a implies u[i + 1] != b by {
        if i + 1 < s.len() {
            assert(s[i] == a);
        } else if i >= s.len() {
            assert(t[i - s.len()] == a);
        } else {
            assert(s.last() == a);
        }
    }
}

/// A row of digits has no letter in it.
proof fn lemma_digits_are_apart(n: nat, a: char, b: char)
    requires
        !text::is_digit(a),
    ensures
        apart(text::decimal(n), a, b),
{
    text::law_decimal_reads_back(n);
    assert forall|i: int| 0 <= i < text::decimal(n).len() implies text::decimal(n)[i] != a by {
        assert(text::is_digit(text::decimal(n)[i]));
    }
}

/// The refusal of a credential holds no two characters one after the other that
/// each of its parts keeps apart.
proof fn lemma_refusal_is_apart(a: char, b: char)
    requires
        !text::is_digit(a),
        a != ' ',
        a != '\n',
        a != 'd',
        apart("HTTP/1.1 "@, a, b),
        apart("Unauthorized"@, a, b),
        apart("\r\nContent-Type: text/plain; charset=utf-8\r\nContent-Length: "@, a, b),
        apart("\r\nCache-Control: no-store\r\nConnection: close\r\n\r\n"@, a, b),
        apart(Refusal::NotAuthorized.spec_body(), a, b),
    ensures
        apart(gate::refusal_text(Refusal::NotAuthorized), a, b),
{
    let r = Refusal::NotAuthorized;
    let body = r.spec_body();
    let code = text::decimal(401);
    let size = text::decimal(vstd::utf8::encode_utf8(body).len());
    let p1 = "HTTP/1.1 "@;
    let p2 = "Unauthorized"@;
    let p3 = "\r\nContent-Type: text/plain; charset=utf-8\r\nContent-Length: "@;
    let p4 = "\r\nCache-Control: no-store\r\nConnection: close\r\n\r\n"@;
    reveal_strlit("HTTP/1.1 ");
    reveal_strlit("Unauthorized");
    reveal_strlit("\r\nContent-Type: text/plain; charset=utf-8\r\nContent-Length: ");
    reveal_strlit("\r\nCache-Control: no-store\r\nConnection: close\r\n\r\n");
    lemma_digits_are_apart(401, a, b);
    lemma_digits_are_apart(vstd::utf8::encode_utf8(body).len(), a, b);
    text::law_decimal_reads_back(401);
    text::law_decimal_reads_back(vstd::utf8::encode_utf8(body).len());
    assert(text::is_digit(code.last()));
    assert(text::is_digit(size.last()));
    assert(p1.last() == ' ' && p2.last() == 'd' && p3.last() == ' ' && p4.last() == '\n');
    let space = seq![' '];
    let s1 = code + space;
    let s2 = s1 + p2;
    lemma_apart_concat(code, space, a, b);
    lemma_apart_concat(s1, p2, a, b);
    let t1 = p1 + s2;
    let t2 = t1 + p3;
    let t3 = t2 + size;
    let t4 = t3 + p4;
    lemma_apart_concat(p1, s2, a, b);
    lemma_apart_concat(t1, p3, a, b);
    lemma_apart_concat(t2, size, a, b);
    lemma_apart_concat(t3, p4, a, b);
    lemma_apart_concat(t4, body, a, b);
    assert(gate::refusal_text(r) =~= t4 + body);
}

/// A pattern with two characters one after the other is not in a text that
/// keeps them apart.
proof fn lemma_not_held(s: Seq<char>, part: Seq<char>, k: int)
    requires
        0 <= k < part.len() - 1,
        apart(s, part[k], part[k + 1]),
    ensures
        !join::holds(s, part),
{
    seqs::lemma_find_seq(s, part, 0);
    if let Some(i) = seqs::find_seq(s, part, 0) {
        assert(s.subrange(i, i + part.len())[k] == part[k]);
        assert(s.subrange(i, i + part.len())[k + 1] == part[k + 1]);
        assert(s[i + k] == part[k]);
    }
}

/// A credential that is refused is not told why: nothing says that it expired,
/// or that it was revoked.
pub proof fn law_a_refused_credential_is_not_told_why()
    ensures
        !join::holds(gate::refusal_text(Refusal::NotAuthorized), "expired"@),
        !join::holds(gate::refusal_text(Refusal::NotAuthorized), "revoked"@),
{
    let text = gate::refusal_text(Refusal::NotAuthorized);
    reveal_strlit("expired");
    reveal_strlit("revoked");
    lemma_parts_are_apart();
    lemma_refusal_is_apart('x', 'p');
    lemma_refusal_is_apart('v', 'o');
    lemma_not_held(text, "expired"@, 1);
    lemma_not_held(text, "revoked"@, 2);
}

/// The parts of that refusal, one by one.
proof fn lemma_parts_are_apart()
    ensures
        forall|a: char, b: char|
            (a == 'x' && b == 'p') || (a == 'v' && b == 'o') ==> {
                &&& #[trigger] apart("HTTP/1.1 "@, a, b)
                &&& apart("Unauthorized"@, a, b)
                &&& apart(
                    "\r\nContent-Type: text/plain; charset=utf-8\r\nContent-Length: "@,
                    a,
                    b,
                )
                &&& apart("\r\nCache-Control: no-store\r\nConnection: close\r\n\r\n"@, a, b)
                &&& apart(Refusal::NotAuthorized.spec_body(), a, b)
            },
{
    reveal_strlit("HTTP/1.1 ");
    reveal_strlit("Unauthorized");
    reveal_strlit("\r\nContent-Type: text/plain; charset=utf-8\r\nContent-Length: ");
    reveal_strlit("\r\nCache-Control: no-store\r\nConnection: close\r\n\r\n");
    reveal_strlit("This h5i share needs a valid invite link. Ask whoever shared it for a new one.");
}

} // verus!
