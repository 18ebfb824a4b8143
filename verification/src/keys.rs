//! Key builder: deterministic construction of storage keys from the
//! namespace prefix, resource and subject identifiers, and (for the
//! window-bound algorithms) the window epoch.
//!
//! Identical `(resource, subject, epoch)` triples must give identical keys
//! across clients, and distinct epochs distinct keys; identifiers containing
//! the delimiter are rejected before any key is built, so fields cannot
//! bleed into one another.

use vstd::prelude::*;

verus! {

/// The field delimiter of every key.
pub open spec fn delimiter() -> char {
    ':'
}

/// The namespace prefix every key starts with.
pub open spec fn key_prefix() -> Seq<char> {
    "rate-limit"@
}

/// An identifier may not contain the delimiter; embedded delimiters would
/// make distinct `(resource, subject)` pairs collide on one key.
/// Callers reject invalid identifiers before any key is built.
pub open spec fn valid_ident(s: Seq<char>) -> bool {
    forall|i: int| 0 <= i < s.len() ==> s[i] != delimiter()
}

/// The decimal digit character of `d`.
pub open spec fn digit_char(d: int) -> char
    recommends
        0 <= d < 10,
{
    if d == 0 {
        '0'
    } else if d == 1 {
        '1'
    } else if d == 2 {
        '2'
    } else if d == 3 {
        '3'
    } else if d == 4 {
        '4'
    } else if d == 5 {
        '5'
    } else if d == 6 {
        '6'
    } else if d == 7 {
        '7'
    } else if d == 8 {
        '8'
    } else {
        '9'
    }
}

/// The usual decimal rendering of `n`, most significant digit first, with
/// no leading zero except for zero itself.
pub open spec fn decimal(n: nat) -> Seq<char>
    decreases n,
{
    if n < 10 {
        seq![digit_char(n as int)]
    } else {
        decimal(n / 10) + seq![digit_char((n % 10) as int)]
    }
}

/// The key of a window-bound counter:
/// `namespace:resource:subject:epoch`.
pub open spec fn window_key(
    namespace: Seq<char>,
    resource: Seq<char>,
    subject: Seq<char>,
    epoch: nat,
) -> Seq<char> {
    namespace + seq![delimiter()] + resource + seq![delimiter()] + subject + seq![delimiter()]
        + decimal(epoch)
}

/// The key of a sliding log: `namespace:resource:subject`, with no epoch
/// segment, since the log covers its whole retained history.
pub open spec fn log_key(namespace: Seq<char>, resource: Seq<char>, subject: Seq<char>) -> Seq<
    char,
> {
    namespace + seq![delimiter()] + resource + seq![delimiter()] + subject
}

proof fn lemma_decimal_len(n: nat)
    ensures
        decimal(n).len() >= 1,
        n >= 10 ==> decimal(n).len() >= 2,
    decreases n,
{
    if n >= 10 {
        lemma_decimal_len(n / 10);
    }
}

/// Decimal rendering is injective: distinct numbers render as distinct
/// digit strings.
pub proof fn lemma_decimal_injective(a: nat, b: nat)
    requires
        decimal(a) == decimal(b),
    ensures
        a == b,
    decreases a + b,
{
    lemma_decimal_len(a);
    lemma_decimal_len(b);
    if a < 10 && b < 10 {
        assert(decimal(a)[0] == digit_char(a as int));
        assert(decimal(b)[0] == digit_char(b as int));
    } else if a < 10 {
        assert(decimal(b).len() >= 2);
    } else if b < 10 {
        assert(decimal(a).len() >= 2);
    } else {
        let pa = decimal(a / 10);
        let pb = decimal(b / 10);
        assert(decimal(a).last() == digit_char((a % 10) as int));
        assert(decimal(b).last() == digit_char((b % 10) as int));
        assert(a % 10 == b % 10);
        assert(pa =~= decimal(a).subrange(0, decimal(a).len() - 1));
        assert(pb =~= decimal(b).subrange(0, decimal(b).len() - 1));
        lemma_decimal_injective(a / 10, b / 10);
    }
}

/// For one `(resource, subject)` pair, distinct epochs give distinct keys:
/// a fresh window never reuses the previous window's counter.
pub proof fn lemma_window_key_epoch_injective(
    namespace: Seq<char>,
    resource: Seq<char>,
    subject: Seq<char>,
    e1: nat,
    e2: nat,
)
    requires
        window_key(namespace, resource, subject, e1) == window_key(namespace, resource, subject, e2),
    ensures
        e1 == e2,
{
    let stem = namespace + seq![delimiter()] + resource + seq![delimiter()] + subject
        + seq![delimiter()];
    let k1 = window_key(namespace, resource, subject, e1);
    let k2 = window_key(namespace, resource, subject, e2);
    assert(decimal(e1) =~= k1.subrange(stem.len() as int, k1.len() as int));
    assert(decimal(e2) =~= k2.subrange(stem.len() as int, k2.len() as int));
    lemma_decimal_injective(e1, e2);
}

/// A window key is longer than the log key of the same pair, so the two
/// kinds never collide.
pub proof fn lemma_window_key_not_log_key(
    namespace: Seq<char>,
    resource: Seq<char>,
    subject: Seq<char>,
    epoch: nat,
)
    ensures
        window_key(namespace, resource, subject, epoch) != log_key(namespace, resource, subject),
{
    lemma_decimal_len(epoch);
    assert(window_key(namespace, resource, subject, epoch).len() > log_key(
        namespace,
        resource,
        subject,
    ).len());
}

/// True when `s` is free of the key delimiter and may stand as a resource
/// or subject identifier.
pub fn check_ident(s: &str) -> (b: bool)
    ensures
        b == valid_ident(s@),
{
    let len = s.unicode_len();
    let mut i: usize = 0;
    while i < len
        invariant
            0 <= i <= len,
            len == s@.len(),
            forall|j: int| 0 <= j < i ==> s@[j] != delimiter(),
        decreases len - i,
    {
        let c = s.get_char(i);
        if c == ':' {
            return false;
        }
        i += 1;
    }
    true
}

fn digit_str(d: u64) -> (r: &'static str)
    requires
        d < 10,
    ensures
        r@ == seq![digit_char(d as int)],
{
    proof {
        reveal_strlit("0");
        reveal_strlit("1");
        reveal_strlit("2");
        reveal_strlit("3");
        reveal_strlit("4");
        reveal_strlit("5");
        reveal_strlit("6");
        reveal_strlit("7");
        reveal_strlit("8");
        reveal_strlit("9");
    }
    match d {
        0 => "0",
        1 => "1",
        2 => "2",
        3 => "3",
        4 => "4",
        5 => "5",
        6 => "6",
        7 => "7",
        8 => "8",
        _ => "9",
    }
}

/// Render `n` in decimal, as the epoch segment of a window key.
pub fn u64_to_decimal(n: u64) -> (s: String)
    ensures
        s@ == decimal(n as nat),
    decreases n,
{
    if n < 10 {
        digit_str(n).to_owned()
    } else {
        let mut s = u64_to_decimal(n / 10);
        s.append(digit_str(n % 10));
        s
    }
}

/// Build the key of a window-bound counter. Callers validate the
/// identifiers first; the key is a pure function of its fields, so every
/// client converges on the same counter.
pub fn build_window_key(namespace: &str, resource: &str, subject: &str, epoch: u64) -> (s: String)
    ensures
        s@ == window_key(namespace@, resource@, subject@, epoch as nat),
{
    proof {
        reveal_strlit(":");
    }
    let mut s = String::from_str(namespace);
    s.append(":");
    s.append(resource);
    s.append(":");
    s.append(subject);
    s.append(":");
    let digits = u64_to_decimal(epoch);
    s.append(digits.as_str());
    proof {
        assert(s@ =~= window_key(namespace@, resource@, subject@, epoch as nat));
    }
    s
}

/// Build the key of a sliding log.
pub fn build_log_key(namespace: &str, resource: &str, subject: &str) -> (s: String)
    ensures
        s@ == log_key(namespace@, resource@, subject@),
{
    proof {
        reveal_strlit(":");
    }
    let mut s = String::from_str(namespace);
    s.append(":");
    s.append(resource);
    s.append(":");
    s.append(subject);
    proof {
        assert(s@ =~= log_key(namespace@, resource@, subject@));
    }
    s
}

} // verus!
