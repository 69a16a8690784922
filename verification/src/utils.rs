//! The identifier codec: caller-supplied ids are printable strings that
//! the server renders as colon-separated groups of four hex digits, two
//! characters to a group, and decodes back for display. Also the PKCE
//! helpers: a random verifier and its URL-safe SHA-256 challenge.

use base64::Engine;
use sha2::Digest;
use vstd::prelude::*;
use vstd::string::StrSliceExecFns;
use vstd::string::StringExecFns;

use crate::random::{is_alphanumeric_char, random_alphanumeric_string};
use crate::{MAX_EMAIL_CHAR, MIN_EMAIL_CHAR};

verus! {

/// A character the codec accepts: the padding digit or anything in the
/// permitted identifier range.
pub open spec fn authorized_char(c: char) -> bool {
    c == '0' || (MIN_EMAIL_CHAR <= c && c <= MAX_EMAIL_CHAR)
}

/// An ASCII hex digit, either case.
pub open spec fn is_hex_digit(c: char) -> bool {
    ('0' <= c && c <= '9') || ('A' <= c && c <= 'F') || ('a' <= c && c <= 'f')
}

/// Value of a hex digit; anything else counts as zero.
pub open spec fn hex_val(c: char) -> int {
    if '0' <= c && c <= '9' {
        c as int - '0' as int
    } else if 'A' <= c && c <= 'F' {
        c as int - 'A' as int + 10
    } else if 'a' <= c && c <= 'f' {
        c as int - 'a' as int + 10
    } else {
        0
    }
}

/// The uppercase hex digit for a value below sixteen.
pub open spec fn hex_digit(n: int) -> char {
    if n == 0 {
        '0'
    } else if n == 1 {
        '1'
    } else if n == 2 {
        '2'
    } else if n == 3 {
        '3'
    } else if n == 4 {
        '4'
    } else if n == 5 {
        '5'
    } else if n == 6 {
        '6'
    } else if n == 7 {
        '7'
    } else if n == 8 {
        '8'
    } else if n == 9 {
        '9'
    } else if n == 10 {
        'A'
    } else if n == 11 {
        'B'
    } else if n == 12 {
        'C'
    } else if n == 13 {
        'D'
    } else if n == 14 {
        'E'
    } else {
        'F'
    }
}

/// The four hex digits encoding a pair of characters.
pub open spec fn hex4(c1: char, c2: char) -> Seq<char> {
    seq![
        hex_digit(c1 as int / 16),
        hex_digit(c1 as int % 16),
        hex_digit(c2 as int / 16),
        hex_digit(c2 as int % 16),
    ]
}

/// The groups an identifier encodes to: characters are taken two at a
/// time — a lone last character is padded with `'0'` — and a pair with an
/// unauthorized character is dropped.
pub open spec fn encode_groups(s: Seq<char>) -> Seq<Seq<char>>
    decreases s.len(),
{
    if s.len() == 0 {
        Seq::empty()
    } else {
        let c1 = s[0];
        let c2 = if s.len() == 1 {
            '0'
        } else {
            s[1]
        };
        let rest = if s.len() == 1 {
            Seq::<Seq<char>>::empty()
        } else {
            encode_groups(s.skip(2))
        };
        if authorized_char(c1) && authorized_char(c2) {
            seq![hex4(c1, c2)] + rest
        } else {
            rest
        }
    }
}

/// Cyclic padding, exactly as the encoder repeats groups: while the list
/// is shorter than the target, the element at the next index — always in
/// range, since the list grows alongside the index — is appended.
pub open spec fn cycle_pad(gs: Seq<Seq<char>>, i: int, target: int) -> Seq<Seq<char>>
    decreases (if target - gs.len() > 0 {
        target - gs.len()
    } else {
        0
    }),
{
    if gs.len() >= target || i < 0 || i >= gs.len() {
        gs
    } else {
        cycle_pad(gs.push(gs[i]), i + 1, target)
    }
}

/// Groups joined with `':'`.
pub open spec fn join_colon(gs: Seq<Seq<char>>) -> Seq<char>
    decreases gs.len(),
{
    if gs.len() == 0 {
        Seq::empty()
    } else if gs.len() == 1 {
        gs[0]
    } else {
        gs[0] + seq![':'] + join_colon(gs.drop_first())
    }
}

/// What `encode_user_email` returns: the identifier's groups, padded out
/// to `uuid_len`, joined with colons; empty when no pair survives.
pub open spec fn spec_encode_user_email(s: Seq<char>, uuid_len: int) -> Seq<char> {
    let gs = encode_groups(s);
    if gs.len() == 0 {
        Seq::empty()
    } else {
        join_colon(cycle_pad(gs, 0, uuid_len))
    }
}

/// The two characters a four-hex-digit group decodes to.
pub open spec fn group_chars(g: Seq<char>) -> Seq<char> {
    seq![
        (((hex_val(g[0]) * 16 + hex_val(g[1])) as u8) as char),
        (((hex_val(g[2]) * 16 + hex_val(g[3])) as u8) as char),
    ]
}

/// Position of the first separator, or the whole length when none
/// stands.
pub open spec fn first_colon(s: Seq<char>) -> int
    decreases s.len(),
{
    if s.len() == 0 {
        0
    } else if s[0] == ':' {
        0
    } else {
        1 + first_colon(s.drop_first())
    }
}

/// The first separator's position lies within the string.
proof fn lemma_first_colon_bounds(s: Seq<char>)
    ensures
        0 <= first_colon(s) <= s.len(),
    decreases s.len(),
{
    if s.len() > 0 && s[0] != ':' {
        lemma_first_colon_bounds(s.drop_first());
    }
}

/// The first separator's position is where the scan says it is.
proof fn lemma_first_colon_at(s: Seq<char>, m: int)
    requires
        0 <= m <= s.len(),
        forall|j: int| 0 <= j < m ==> s[j] != ':',
        m < s.len() ==> s[m] == ':',
    ensures
        first_colon(s) == m,
    decreases m,
{
    if s.len() > 0 && m > 0 {
        let t = s.drop_first();
        assert forall|j: int| 0 <= j < m - 1 implies t[j] != ':' by {
            assert(t[j] == s[j + 1]);
        }
        if m - 1 < t.len() {
            assert(t[m - 1] == s[m]);
        }
        lemma_first_colon_at(t, m - 1);
    }
}

/// What `decode_user_email` returns: each colon-separated group gives two
/// characters from its first four hex digits; any extra characters of a
/// group, and a group shorter than four characters, are ignored.
pub open spec fn decode_groups(s: Seq<char>) -> Seq<char>
    decreases s.len(),
    via decode_groups_decreases
{
    if s.len() == 0 {
        Seq::empty()
    } else {
        let c = first_colon(s);
        let head = if c >= 4 {
            group_chars(s.take(c).take(4))
        } else {
            Seq::<char>::empty()
        };
        if c == s.len() {
            head
        } else {
            head + decode_groups(s.skip(c + 1))
        }
    }
}

#[via_fn]
proof fn decode_groups_decreases(s: Seq<char>) {
    lemma_first_colon_bounds(s);
}

/// How many characters of an encoded identifier are not separators.
pub open spec fn non_colon_count(s: Seq<char>) -> int {
    s.filter(|c: char| c != ':').len() as int
}

/// The characters the codec accepts: the padding digit, then the
/// permitted identifier range in order.
pub fn get_authorized_bytes() -> (r: Vec<char>)
    ensures
        r@.len() == 2 + MAX_EMAIL_CHAR as int - MIN_EMAIL_CHAR as int,
        r@[0] == '0',
        forall|i: int|
            1 <= i < r@.len() ==> (#[trigger] r@[i]) as int == MIN_EMAIL_CHAR as int + i - 1,
        forall|i: int| 0 <= i < r@.len() ==> authorized_char(#[trigger] r@[i]),
        forall|c: char| authorized_char(c) ==> r@.contains(c),
{
    let mut r: Vec<char> = Vec::new();
    r.push('0');
    let lo: u32 = MIN_EMAIL_CHAR as u32;
    let hi: u32 = MAX_EMAIL_CHAR as u32;
    let mut b: u32 = lo;
    while b <= hi
        invariant
            lo == MIN_EMAIL_CHAR as u32,
            hi == MAX_EMAIL_CHAR as u32,
            lo <= b <= hi + 1,
            r@.len() == b - lo + 1,
            r@[0] == '0',
            forall|i: int| 1 <= i < r@.len() ==> (#[trigger] r@[i]) as u32 == lo + i - 1,
            forall|i: int| 0 <= i < r@.len() ==> authorized_char(#[trigger] r@[i]),
        decreases hi + 1 - b,
    {
        let c = (b as u8) as char;
        proof {
            assert(MIN_EMAIL_CHAR <= c && c <= MAX_EMAIL_CHAR);
        }
        r.push(c);
        b = b + 1;
    }
    proof {
        assert forall|c: char| authorized_char(c) implies r@.contains(c) by {
            if c == '0' {
                assert(r@[0] == c);
            } else {
                let i = c as int - lo as int + 1;
                assert(r@[i] as u32 == c as u32);
                assert(r@[i] == c);
            }
        }
    }
    r
}

/// Whether the identifier holds any character outside the permitted
/// range.
pub fn email_contains_invalid_chars(email: String) -> (b: bool)
    ensures
        b == exists|i: int| 0 <= i < email@.len() && !authorized_char(#[trigger] email@[i]),
{
    let s = email.as_str();
    let n = s.unicode_len();
    let mut i: usize = 0;
    while i < n
        invariant
            i <= n,
            n as nat == email@.len(),
            s@ == email@,
            forall|j: int| 0 <= j < i ==> authorized_char(#[trigger] email@[j]),
        decreases n - i,
    {
        let c = s.get_char(i);
        if !(c == '0' || (MIN_EMAIL_CHAR <= c && c <= MAX_EMAIL_CHAR)) {
            return true;
        }
        i = i + 1;
    }
    false
}

/// The characters of a string, in order.
fn chars_of(s: &str) -> (r: Vec<char>)
    ensures
        r@ == s@,
{
    let n = s.unicode_len();
    let mut r: Vec<char> = Vec::new();
    let mut i: usize = 0;
    while i < n
        invariant
            i <= n,
            n as nat == s@.len(),
            r@ == s@.take(i as int),
        decreases n - i,
    {
        r.push(s.get_char(i));
        proof {
            assert(r@ =~= s@.take(i + 1 as int));
        }
        i = i + 1;
    }
    proof {
        assert(s@.take(n as int) =~= s@);
    }
    r
}

/// Relies on std's String::push: appends exactly one character.
#[verifier::external_body]
fn push_char(s: &mut String, c: char)
    ensures
        final(s)@ == old(s)@.push(c),
{
    s.push(c);
}

/// A string holding exactly these characters.
fn string_from_chars(cs: &Vec<char>) -> (r: String)
    ensures
        r@ == cs@,
{
    let mut r = String::new();
    let mut i: usize = 0;
    while i < cs.len()
        invariant
            i <= cs@.len(),
            r@ == cs@.take(i as int),
        decreases cs@.len() - i,
    {
        push_char(&mut r, cs[i]);
        proof {
            assert(r@ =~= cs@.take(i + 1 as int));
        }
        i = i + 1;
    }
    proof {
        assert(cs@.take(cs@.len() as int) =~= cs@);
    }
    r
}

/// The uppercase hex digit of a value below sixteen.
fn hex_digit_exec(n: u8) -> (c: char)
    requires
        n < 16,
    ensures
        c == hex_digit(n as int),
{
    match n {
        0 => '0',
        1 => '1',
        2 => '2',
        3 => '3',
        4 => '4',
        5 => '5',
        6 => '6',
        7 => '7',
        8 => '8',
        9 => '9',
        10 => 'A',
        11 => 'B',
        12 => 'C',
        13 => 'D',
        14 => 'E',
        _ => 'F',
    }
}

/// Value of a hex digit, zero for anything else.
fn hex_val_exec(c: char) -> (v: u8)
    ensures
        v as int == hex_val(c),
        v < 16,
{
    if '0' <= c && c <= '9' {
        ((c as u32) - ('0' as u32)) as u8
    } else if 'A' <= c && c <= 'F' {
        ((c as u32) - ('A' as u32) + 10) as u8
    } else if 'a' <= c && c <= 'f' {
        ((c as u32) - ('a' as u32) + 10) as u8
    } else {
        0
    }
}

/// The four hex digits of a pair of characters below 256.
fn hex4_exec(c1: char, c2: char) -> (r: Vec<char>)
    requires
        (c1 as int) < 256,
        (c2 as int) < 256,
    ensures
        r@ == hex4(c1, c2),
{
    let b1: u32 = c1 as u32;
    let b2: u32 = c2 as u32;
    let mut r: Vec<char> = Vec::new();
    r.push(hex_digit_exec((b1 / 16) as u8));
    r.push(hex_digit_exec((b1 % 16) as u8));
    r.push(hex_digit_exec((b2 / 16) as u8));
    r.push(hex_digit_exec((b2 % 16) as u8));
    proof {
        assert(r@ =~= hex4(c1, c2));
    }
    r
}

/// The views of a list of character vectors.
pub open spec fn views_of(gs: Seq<Vec<char>>) -> Seq<Seq<char>> {
    gs.map_values(|g: Vec<char>| g@)
}

/// Encodes an identifier as colon-separated groups of four uppercase hex
/// digits, two characters to a group; pairs holding an unauthorized
/// character are dropped, and the groups are repeated cyclically until at
/// least `uuid_len` of them stand. An identifier with no surviving pair
/// encodes to the empty string.
pub fn encode_user_email(email: String, uuid_len: usize) -> (r: String)
    ensures
        r@ == spec_encode_user_email(email@, uuid_len as int),
{
    let cs = chars_of(email.as_str());
    let ghost s = email@;
    let mut groups: Vec<Vec<char>> = Vec::new();
    let mut i: usize = 0;
    proof {
        assert(s.skip(0) =~= s);
        assert(views_of(groups@) + encode_groups(s) =~= encode_groups(s));
    }
    while i < cs.len()
        invariant
            cs@ == s,
            i <= cs@.len(),
            encode_groups(s) == views_of(groups@) + encode_groups(s.skip(i as int)),
        decreases cs@.len() - i,
    {
        let c1 = cs[i];
        let c2 = if i + 1 < cs.len() {
            cs[i + 1]
        } else {
            '0'
        };
        let ghost before = views_of(groups@);
        proof {
            assert(s.skip(i as int)[0] == s[i as int]);
            if i + 1 < cs@.len() {
                assert(s.skip(i as int)[1] == s[i + 1]);
                assert(s.skip(i as int).skip(2) =~= s.skip(i + 2));
            }
        }
        if (c1 == '0' || (MIN_EMAIL_CHAR <= c1 && c1 <= MAX_EMAIL_CHAR)) && (c2 == '0' || (
        MIN_EMAIL_CHAR <= c2 && c2 <= MAX_EMAIL_CHAR)) {
            proof {
                assert((c1 as int) < 256 && (c2 as int) < 256);
            }
            let g = hex4_exec(c1, c2);
            groups.push(g);
            proof {
                assert(views_of(groups@) =~= before.push(hex4(c1, c2)));
                assert(before.push(hex4(c1, c2)) =~= before + seq![hex4(c1, c2)]);
            }
        }
        proof {
            if i + 1 < cs@.len() {
                if authorized_char(c1) && authorized_char(c2) {
                    assert(encode_groups(s.skip(i as int)) =~= seq![hex4(c1, c2)] + encode_groups(
                        s.skip(i + 2),
                    ));
                    assert(views_of(groups@) + encode_groups(s.skip(i + 2)) =~= (before + seq![
                        hex4(c1, c2),
                    ]) + encode_groups(s.skip(i + 2)));
                }
            } else {
                assert(s.skip(i as int).len() == 1);
                assert(s.skip(cs@.len() as int) =~= Seq::<char>::empty());
            }
        }
        if i + 1 < cs.len() {
            i = i + 2;
        } else {
            i = i + 1;
        }
    }
    proof {
        assert(s.skip(cs@.len() as int) =~= Seq::<char>::empty());
        assert(views_of(groups@) + encode_groups(Seq::<char>::empty()) =~= views_of(groups@));
        assert(views_of(groups@) == encode_groups(s));
    }
    if groups.len() == 0 {
        return String::new();
    }
    let ghost base = views_of(groups@);
    let mut i2: usize = 0;
    while groups.len() < uuid_len
        invariant
            views_of(groups@).len() > 0,
            i2 < groups@.len(),
            cycle_pad(base, 0, uuid_len as int) == cycle_pad(
                views_of(groups@),
                i2 as int,
                uuid_len as int,
            ),
        decreases uuid_len - groups@.len(),
    {
        let ghost before = views_of(groups@);
        let g = groups[i2].clone();
        groups.push(g);
        proof {
            assert(views_of(groups@) =~= before.push(before[i2 as int]));
        }
        i2 = i2 + 1;
    }
    proof {
        assert(cycle_pad(views_of(groups@), i2 as int, uuid_len as int) == views_of(groups@));
    }
    let mut out: Vec<char> = Vec::new();
    let mut j: usize = 0;
    while j < groups.len()
        invariant
            j <= groups@.len(),
            out@ == join_colon(views_of(groups@).take(j as int)),
            views_of(groups@) == cycle_pad(base, 0, uuid_len as int),
        decreases groups@.len() - j,
    {
        if j > 0 {
            out.push(':');
        }
        let ghost before_chars = out@;
        let mut c: usize = 0;
        let ghost gview = groups@[j as int]@;
        while c < groups[j].len()
            invariant
                j < groups@.len(),
                c <= gview.len(),
                gview == groups@[j as int]@,
                out@ == before_chars + gview.take(c as int),
            decreases gview.len() - c,
        {
            out.push(groups[j][c]);
            proof {
                assert(out@ =~= before_chars + gview.take(c + 1 as int));
            }
            c = c + 1;
        }
        proof {
            assert(gview.take(gview.len() as int) =~= gview);
            lemma_join_colon_take_step(views_of(groups@), j as int);
        }
        j = j + 1;
    }
    proof {
        assert(views_of(groups@).take(groups@.len() as int) =~= views_of(groups@));
    }
    string_from_chars(&out)
}

/// Joining one more group appends a separator — unless it is the first —
/// and the group itself.
proof fn lemma_join_colon_take_step(gs: Seq<Seq<char>>, j: int)
    requires
        0 <= j < gs.len(),
    ensures
        join_colon(gs.take(j + 1)) == if j == 0 {
            gs[0]
        } else {
            join_colon(gs.take(j)) + seq![':'] + gs[j]
        },
    decreases j,
{
    if j == 0 {
        assert(gs.take(1).len() == 1);
        assert(gs.take(1)[0] == gs[0]);
    } else {
        lemma_join_colon_take_step(gs.drop_first(), j - 1);
        assert(gs.take(j + 1).drop_first() =~= gs.drop_first().take(j));
        assert(gs.take(j).drop_first() =~= gs.drop_first().take(j - 1));
        assert(gs.take(j + 1)[0] == gs[0]);
        assert(gs.take(j)[0] == gs[0]);
        if j == 1 {
            assert(join_colon(gs.take(2)) == gs[0] + seq![':'] + join_colon(gs.drop_first().take(1)));
            assert(join_colon(gs.drop_first().take(1)) == gs[1]);
            assert(join_colon(gs.take(1)) == gs[0]);
        } else {
            assert(join_colon(gs.take(j + 1)) == gs[0] + seq![':'] + join_colon(
                gs.drop_first().take(j),
            ));
            assert(join_colon(gs.take(j)) == gs[0] + seq![':'] + join_colon(
                gs.drop_first().take(j - 1),
            ));
            assert((gs[0] + seq![':'] + (join_colon(gs.drop_first().take(j - 1)) + seq![':']
                + gs.drop_first()[j - 1])) =~= ((gs[0] + seq![':'] + join_colon(
                gs.drop_first().take(j - 1),
            )) + seq![':'] + gs[j]));
        }
    }
}

/// Decodes an encoded identifier: each colon-separated group gives two
/// characters back from its first four hex digits; extra characters of a
/// group, and groups shorter than four characters, are ignored.
pub fn decode_user_email(user_id: &crate::room::RoomUserID) -> (r: String)
    ensures
        r@ == decode_groups(user_id@),
{
    let s = user_id.as_str();
    let n = s.unicode_len();
    let mut out: Vec<char> = Vec::new();
    let mut g: usize = 0;
    proof {
        assert(user_id@.skip(0) =~= user_id@);
        assert(out@ + decode_groups(user_id@) =~= decode_groups(user_id@));
    }
    while g < n
        invariant
            g <= n,
            n as nat == user_id@.len(),
            s@ == user_id@,
            decode_groups(user_id@) == out@ + decode_groups(user_id@.skip(g as int)),
        decreases n - g,
    {
        let mut i: usize = g;
        while i < n && s.get_char(i) != ':'
            invariant
                g <= i <= n,
                n as nat == user_id@.len(),
                s@ == user_id@,
                forall|j: int| g <= j < i ==> user_id@[j] != ':',
            decreases n - i,
        {
            i = i + 1;
        }
        let ghost tail = user_id@.skip(g as int);
        proof {
            assert forall|j: int| 0 <= j < i - g implies tail[j] != ':' by {
                assert(tail[j] == user_id@[g + j]);
            }
            if (i as int) - (g as int) < tail.len() {
                assert(tail[i - g] == user_id@[i as int]);
            }
            lemma_first_colon_at(tail, i as int - g as int);
        }
        if i - g >= 4 {
            let v1 = hex_val_exec(s.get_char(g));
            let v2 = hex_val_exec(s.get_char(g + 1));
            let v3 = hex_val_exec(s.get_char(g + 2));
            let v4 = hex_val_exec(s.get_char(g + 3));
            let b1: u8 = v1 * 16 + v2;
            let b2: u8 = v3 * 16 + v4;
            let ghost before = out@;
            out.push(b1 as char);
            out.push(b2 as char);
            proof {
                let grp = tail.take(first_colon(tail)).take(4);
                assert(grp[0] == user_id@[g as int]);
                assert(grp[1] == user_id@[g + 1]);
                assert(grp[2] == user_id@[g + 2]);
                assert(grp[3] == user_id@[g + 3]);
                assert(out@ =~= before + group_chars(grp));
            }
        }
        proof {
            if i < n {
                assert(tail.skip(i - g + 1) =~= user_id@.skip(i + 1));
            } else {
                assert(first_colon(tail) == tail.len());
            }
        }
        if i < n {
            g = i + 1;
        } else {
            g = n;
        }
    }
    proof {
        assert(user_id@.skip(n as int).len() == 0);
        assert(decode_groups(user_id@.skip(g as int)) == Seq::<char>::empty());
        assert(out@ + Seq::<char>::empty() =~= out@);
    }
    string_from_chars(&out)
}

/// Recovers an identifier of a known length from its encoding: refused
/// when the encoding carries fewer hex digits than the identifier is
/// long, else the decoded prefix of that length.
pub fn hex_uuid_to_valid_email(hex: String, email_len: usize) -> (r: Option<String>)
    requires
        non_colon_count(hex@) >= email_len ==> decode_groups(hex@).len() >= email_len,
    ensures
        match r {
            None => non_colon_count(hex@) < email_len,
            Some(d) => non_colon_count(hex@) >= email_len && d@ == decode_groups(hex@).take(
                email_len as int,
            ),
        },
{
    let s = hex.as_str();
    let n = s.unicode_len();
    let mut stripped: usize = 0;
    let mut i: usize = 0;
    while i < n
        invariant
            i <= n,
            n as nat == hex@.len(),
            s@ == hex@,
            stripped <= i,
            stripped as int == hex@.take(i as int).filter(|c: char| c != ':').len(),
        decreases n - i,
    {
        let ghost prefix = hex@.take(i as int);
        let ghost next = hex@.take(i + 1 as int);
        proof {
            assert(next.drop_last() =~= prefix);
            assert(next.last() == hex@[i as int]);
            reveal(Seq::filter);
        }
        if s.get_char(i) != ':' {
            stripped = stripped + 1;
        }
        i = i + 1;
    }
    proof {
        assert(hex@.take(n as int) =~= hex@);
    }
    if stripped < email_len {
        return None;
    }
    let email = decode_user_email(&hex);
    let m = email.as_str().unicode_len();
    if m == email_len {
        proof {
            assert(email@.take(email_len as int) =~= email@);
        }
        return Some(email);
    }
    let prefix = email.as_str().substring_char(0, email_len);
    proof {
        assert(email@.subrange(0, email_len as int) =~= email@.take(email_len as int));
    }
    Some(prefix.to_owned())
}

/// The characters a list of groups decodes to, two per group.
pub open spec fn groups_decoded(gs: Seq<Seq<char>>) -> Seq<char>
    decreases gs.len(),
{
    if gs.len() == 0 {
        Seq::empty()
    } else {
        group_chars(gs[0]) + groups_decoded(gs.drop_first())
    }
}

/// A group of four hex digits decodes back to the pair it encoded.
proof fn lemma_hex4_chars(c1: char, c2: char)
    requires
        (c1 as int) < 256,
        (c2 as int) < 256,
    ensures
        group_chars(hex4(c1, c2)) == seq![c1, c2],
{
    let n1 = c1 as int / 16;
    let m1 = c1 as int % 16;
    let n2 = c2 as int / 16;
    let m2 = c2 as int % 16;
    assert(hex_val(hex_digit(n1)) == n1);
    assert(hex_val(hex_digit(m1)) == m1);
    assert(hex_val(hex_digit(n2)) == n2);
    assert(hex_val(hex_digit(m2)) == m2);
    assert(n1 * 16 + m1 == c1 as int);
    assert(n2 * 16 + m2 == c2 as int);
    assert(group_chars(hex4(c1, c2)) =~= seq![c1, c2]);
}

/// Joining groups of four puts five characters to a group but the last.
proof fn lemma_join_len(gs: Seq<Seq<char>>)
    requires
        forall|j: int| 0 <= j < gs.len() ==> (#[trigger] gs[j]).len() == 4,
    ensures
        join_colon(gs).len() == if gs.len() == 0 {
            0int
        } else {
            5 * gs.len() - 1
        },
    decreases gs.len(),
{
    if gs.len() > 1 {
        lemma_join_len(gs.drop_first());
    }
}

/// Decoding a join visits each group in order.
/// A group of exactly four hex digits, as the encoder emits them.
pub open spec fn hex_group(g: Seq<char>) -> bool {
    g.len() == 4 && (forall|x: int| 0 <= x < 4 ==> is_hex_digit(#[trigger] g[x]))
}

proof fn lemma_decode_join(gs: Seq<Seq<char>>)
    requires
        gs.len() > 0,
        forall|j: int| 0 <= j < gs.len() ==> hex_group(#[trigger] gs[j]),
    ensures
        decode_groups(join_colon(gs)) == groups_decoded(gs),
    decreases gs.len(),
{
    if gs.len() == 1 {
        let s = join_colon(gs);
        assert(s == gs[0]);
        assert(hex_group(gs[0]));
        assert forall|j: int| 0 <= j < 4 implies s[j] != ':' by {
            assert(is_hex_digit(gs[0][j]));
        }
        lemma_first_colon_at(s, 4);
        assert(s.take(4).take(4) =~= gs[0]);
        assert(decode_groups(s) == group_chars(gs[0]));
        assert(gs.drop_first().len() == 0);
        assert(groups_decoded(gs.drop_first()) == Seq::<char>::empty());
        assert(groups_decoded(gs) =~= group_chars(gs[0]));
    } else {
        let s = join_colon(gs);
        let rest = gs.drop_first();
        lemma_join_len(rest);
        lemma_decode_join(rest);
        assert(s == gs[0] + seq![':'] + join_colon(rest));
        assert(s.len() == 5 + join_colon(rest).len());
        assert(s.len() > 4);
        assert(hex_group(gs[0]));
        assert forall|j: int| 0 <= j < 4 implies s[j] != ':' by {
            assert(s[j] == gs[0][j]);
            assert(is_hex_digit(gs[0][j]));
        }
        assert(s[4] == ':');
        lemma_first_colon_at(s, 4);
        assert(s.take(4).take(4) =~= gs[0]);
        assert(s.skip(5) =~= join_colon(rest));
        assert(decode_groups(s) == group_chars(gs[0]) + decode_groups(join_colon(rest)));
    }
}

/// Decoding distributes over concatenation of group lists.
proof fn lemma_groups_decoded_concat(a: Seq<Seq<char>>, b: Seq<Seq<char>>)
    ensures
        groups_decoded(a + b) == groups_decoded(a) + groups_decoded(b),
    decreases a.len(),
{
    if a.len() == 0 {
        assert(a + b =~= b);
        assert(groups_decoded(a) + groups_decoded(b) =~= groups_decoded(b));
    } else {
        lemma_groups_decoded_concat(a.drop_first(), b);
        assert((a + b).drop_first() =~= a.drop_first() + b);
        assert((a + b)[0] == a[0]);
        assert(group_chars(a[0]) + (groups_decoded(a.drop_first()) + groups_decoded(b)) =~= (
        group_chars(a[0]) + groups_decoded(a.drop_first())) + groups_decoded(b));
    }
}

/// On an identifier of authorized characters nothing is dropped: one
/// group per pair, the lone last character padded with `'0'`, and the
/// groups decode back to the identifier.
proof fn lemma_encode_groups_auth(s: Seq<char>)
    requires
        forall|i: int| 0 <= i < s.len() ==> authorized_char(#[trigger] s[i]),
    ensures
        encode_groups(s).len() == (s.len() + 1) / 2,
        forall|j: int| 0 <= j < encode_groups(s).len() ==> hex_group(#[trigger] encode_groups(s)[j]),
        groups_decoded(encode_groups(s)) == if s.len() % 2 == 0 {
            s
        } else {
            s.push('0')
        },
    decreases s.len(),
{
    if s.len() == 0 {
    } else if s.len() == 1 {
        assert((s[0] as int) < 256);
        lemma_hex4_chars(s[0], '0');
        let gs = encode_groups(s);
        assert(gs =~= seq![hex4(s[0], '0')]);
        assert(gs.drop_first().len() == 0);
        assert(groups_decoded(gs.drop_first()) == Seq::<char>::empty());
        assert(gs[0] == hex4(s[0], '0'));
        lemma_hex4_is_hex_group(s[0], '0');
        assert(groups_decoded(gs) =~= group_chars(hex4(s[0], '0')));
        assert(groups_decoded(gs) =~= s.push('0'));
    } else {
        let tail = s.skip(2);
        assert(forall|i: int| 0 <= i < tail.len() ==> authorized_char(#[trigger] tail[i]));
        lemma_encode_groups_auth(tail);
        assert((s[0] as int) < 256 && (s[1] as int) < 256);
        lemma_hex4_chars(s[0], s[1]);
        let g0 = seq![hex4(s[0], s[1])];
        let gs = encode_groups(s);
        assert(gs == g0 + encode_groups(tail));
        lemma_groups_decoded_concat(g0, encode_groups(tail));
        assert(g0.drop_first().len() == 0);
        assert(groups_decoded(g0.drop_first()) == Seq::<char>::empty());
        assert(g0[0] == hex4(s[0], s[1]));
        assert(groups_decoded(g0) =~= group_chars(hex4(s[0], s[1])));
        if s.len() % 2 == 0 {
            assert(tail.len() % 2 == 0);
            assert(seq![s[0], s[1]] + tail =~= s);
        } else {
            assert(tail.len() % 2 == 1);
            assert(seq![s[0], s[1]] + tail.push('0') =~= s.push('0'));
        }
        assert forall|j: int| 0 <= j < gs.len() implies hex_group(#[trigger] gs[j]) by {
            if j > 0 {
                assert(gs[j] == encode_groups(tail)[j - 1]);
            } else {
                lemma_hex4_is_hex_group(s[0], s[1]);
            }
        }
    }
}

/// The four digits of a pair form a hex group.
proof fn lemma_hex4_is_hex_group(c1: char, c2: char)
    ensures
        hex_group(hex4(c1, c2)),
{
    assert forall|x: int| 0 <= x < 4 implies is_hex_digit(#[trigger] hex4(c1, c2)[x]) by {
        assert(is_hex_digit(hex_digit(c1 as int / 16)));
        assert(is_hex_digit(hex_digit(c1 as int % 16)));
        assert(is_hex_digit(hex_digit(c2 as int / 16)));
        assert(is_hex_digit(hex_digit(c2 as int % 16)));
    }
}

/// Cyclic padding keeps the groups it started from as a prefix and adds
/// only copies of them.
proof fn lemma_cycle_pad(gs: Seq<Seq<char>>, i: int, target: int)
    requires
        0 <= i <= gs.len(),
        gs.len() > 0,
    ensures
        cycle_pad(gs, i, target).take(gs.len() as int) == gs,
        cycle_pad(gs, i, target).len() >= gs.len(),
        forall|j: int|
            0 <= j < cycle_pad(gs, i, target).len() ==> gs.contains(
                #[trigger] cycle_pad(gs, i, target)[j],
            ),
    decreases (if target - gs.len() > 0 {
        target - gs.len()
    } else {
        0
    }),
{
    let out = cycle_pad(gs, i, target);
    if gs.len() >= target || i >= gs.len() {
        assert(out.take(gs.len() as int) =~= gs);
        assert forall|j: int| 0 <= j < out.len() implies gs.contains(#[trigger] out[j]) by {
            assert(gs[j] == out[j]);
        }
    } else {
        let gs2 = gs.push(gs[i]);
        lemma_cycle_pad(gs2, i + 1, target);
        assert(out == cycle_pad(gs2, i + 1, target));
        assert(out.take(gs2.len() as int) == gs2);
        assert(out.take(gs.len() as int) =~= gs2.take(gs.len() as int));
        assert(gs2.take(gs.len() as int) =~= gs);
        assert forall|j: int| 0 <= j < out.len() implies gs.contains(#[trigger] out[j]) by {
            assert(gs2.contains(out[j]));
            let j1 = choose|j1: int| 0 <= j1 < gs2.len() && gs2[j1] == out[j];
            if j1 < gs.len() {
                assert(gs[j1] == out[j]);
            } else {
                assert(gs[i] == out[j]);
            }
        }
    }
}

/// Round trip of the identifier codec: an identifier of authorized
/// characters, encoded with any group budget covering it, decodes back to
/// itself on its own length.
pub proof fn lemma_email_round_trip(s: Seq<char>, uuid_len: int)
    requires
        forall|i: int| 0 <= i < s.len() ==> authorized_char(#[trigger] s[i]),
        uuid_len >= (s.len() + 1) / 2,
    ensures
        decode_groups(spec_encode_user_email(s, uuid_len)).take(s.len() as int) == s,
{
    let gs = encode_groups(s);
    lemma_encode_groups_auth(s);
    if s.len() == 0 {
        assert(decode_groups(spec_encode_user_email(s, uuid_len)).take(0) =~= s);
    } else {
        assert(gs.len() > 0);
        let padded = cycle_pad(gs, 0, uuid_len);
        lemma_cycle_pad(gs, 0, uuid_len);
        assert forall|j: int| 0 <= j < padded.len() implies hex_group(#[trigger] padded[j]) by {
            assert(gs.contains(padded[j]));
            let j0 = choose|j0: int| 0 <= j0 < gs.len() && gs[j0] == padded[j];
            assert(hex_group(gs[j0]));
        }
        lemma_decode_join(padded);
        let extra = padded.skip(gs.len() as int);
        assert(padded =~= gs + extra) by {
            assert(padded.take(gs.len() as int) == gs);
        }
        lemma_groups_decoded_concat(gs, extra);
        let base = groups_decoded(gs);
        assert(base.len() >= s.len());
        assert(decode_groups(spec_encode_user_email(s, uuid_len)) == base + groups_decoded(extra));
        assert((base + groups_decoded(extra)).take(s.len() as int) =~= base.take(s.len() as int));
        if s.len() % 2 == 0 {
            assert(base.take(s.len() as int) =~= s);
        } else {
            assert(base.take(s.len() as int) =~= s);
        }
    }
}

/// A fresh 128-character alphanumeric PKCE verifier.
pub fn generate_code_verifier() -> (r: String)
    ensures
        r@.len() == 128,
        forall|i: int| 0 <= i < r@.len() ==> is_alphanumeric_char(#[trigger] r@[i]),
{
    random_alphanumeric_string(128)
}

/// The SHA-256 digest of a string's UTF-8 bytes, named: a function of the
/// string alone.
pub uninterp spec fn sha256_str_of(s: Seq<char>) -> Seq<u8>;

/// Relies on sha2's Sha256: the 32-byte digest of the string's bytes,
/// depending on the string alone.
#[verifier::external_body]
fn sha256_of_str(s: &str) -> (r: Vec<u8>)
    ensures
        r@ == sha256_str_of(s@),
        r@.len() == 32,
{
    sha2::Sha256::digest(s.as_bytes()).to_vec()
}

/// The padded URL-safe base64 rendering of bytes, named: a function of
/// the bytes alone.
pub uninterp spec fn base64url_of(b: Seq<u8>) -> Seq<char>;

/// Relies on base64's URL_SAFE engine: the padded URL-safe alphabet,
/// four characters for every started three-byte block, depending on the
/// bytes alone.
#[verifier::external_body]
fn base64url(b: &Vec<u8>) -> (r: String)
    ensures
        r@ == base64url_of(b@),
        r@.len() == 4 * ((b@.len() + 2) / 3),
{
    base64::prelude::BASE64_URL_SAFE.encode(b)
}

/// Padding stripped and the two URL-unsafe characters mapped, as the
/// challenge is published.
pub open spec fn url_safe_strip(s: Seq<char>) -> Seq<char> {
    s.filter(|c: char| c != '=').map_values(
        |c: char|
            if c == '+' {
                '-'
            } else if c == '/' {
                '_'
            } else {
                c
            },
    )
}

/// The PKCE challenge of a verifier: URL-safe base64 of its SHA-256
/// digest, with padding stripped.
pub fn generate_code_challenge(code_verifier: String) -> (r: String)
    ensures
        r@ == url_safe_strip(base64url_of(sha256_str_of(code_verifier@))),
{
    let digest = sha256_of_str(code_verifier.as_str());
    let encoded = base64url(&digest);
    let cs = chars_of(encoded.as_str());
    let mut out: Vec<char> = Vec::new();
    let mut i: usize = 0;
    while i < cs.len()
        invariant
            i <= cs@.len(),
            cs@ == base64url_of(sha256_str_of(code_verifier@)),
            out@ == url_safe_strip(cs@.take(i as int)),
        decreases cs@.len() - i,
    {
        let ghost prefix = cs@.take(i as int);
        let ghost next = cs@.take(i + 1 as int);
        proof {
            assert(next.drop_last() =~= prefix);
            assert(next.last() == cs@[i as int]);
            reveal(Seq::filter);
        }
        let c = cs[i];
        if c != '=' {
            let mapped = if c == '+' {
                '-'
            } else if c == '/' {
                '_'
            } else {
                c
            };
            out.push(mapped);
            proof {
                assert(next.filter(|c: char| c != '=') =~= prefix.filter(|c: char| c != '=').push(
                    cs@[i as int],
                ));
                assert(out@ =~= url_safe_strip(next));
            }
        } else {
            proof {
                assert(next.filter(|c: char| c != '=') =~= prefix.filter(|c: char| c != '='));
                assert(out@ =~= url_safe_strip(next));
            }
        }
        i = i + 1;
    }
    proof {
        assert(cs@.take(cs@.len() as int) =~= cs@);
    }
    string_from_chars(&out)
}

} // verus!
