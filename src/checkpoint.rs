use vstd::prelude::*;
use vstd::string::{StrSliceExecFns, StringExecFns};

use crate::genome::Genome;
use crate::sorting::{is_descending, sort_descending};

verus! {

/// At most this many checkpoint records are listed, most recent first.
pub const MAX_RECENT: usize = 30;

pub open spec fn is_letter(c: char) -> bool {
    ('a' <= c && c <= 'z') || ('A' <= c && c <= 'Z')
}

/// A character that a topology name may hold: a letter or a space.
pub open spec fn is_name_char(c: char) -> bool {
    is_letter(c) || c == ' '
}

pub open spec fn is_digit(c: char) -> bool {
    '0' <= c && c <= '9'
}

/// A topology name that a record can carry: one or more letters and spaces.
pub open spec fn is_topology_name(net: Seq<char>) -> bool {
    &&& net.len() > 0
    &&& forall|i: int| 0 <= i < net.len() ==> is_name_char(#[trigger] net[i])
}

pub open spec fn digit_value(c: char) -> nat {
    (c as u32 - '0' as u32) as nat
}

/// The number that a string of decimal digits spells, most significant first.
pub open spec fn digits_value(s: Seq<char>) -> nat
    decreases s.len(),
{
    if s.len() == 0 {
        0
    } else {
        digits_value(s.drop_last()) * 10 + digit_value(s.last())
    }
}

pub open spec fn digit_char(d: nat) -> char {
    if d == 0 {
        '0'
    } else if d == 1 {
        '1'
    } else if d == 2 {
        '2'
    } else if d == 3 {
        '3'
    } else if d == 4 {
        '4'
    } else if d == 5 {
        '5'
    } else if d == 6 {
        '6'
    } else if d == 7 {
        '7'
    } else if d == 8 {
        '8'
    } else {
        '9'
    }
}

/// The decimal digits of `n`, most significant first, without leading zeros.
pub open spec fn decimal(n: nat) -> Seq<char>
    decreases n,
{
    if n < 10 {
        seq![digit_char(n)]
    } else {
        decimal(n / 10).push(digit_char(n % 10))
    }
}

/// The extension of a checkpoint file.
pub open spec fn extension() -> Seq<char> {
    seq!['.', 'm', 'p', 'k']
}

/// The name under which the checkpoint with sequence number `n` of topology `net` is saved.
pub open spec fn record_name(net: Seq<char>, n: nat) -> Seq<char> {
    seq!['b', 'e', 's', 't', '_'] + net + seq!['_'] + decimal(n)
}

/// The file that holds that checkpoint.
pub open spec fn record_file(net: Seq<char>, n: nat) -> Seq<char> {
    record_name(net, n) + extension()
}

/// `s` reads `<prefix>_<net>_<digits>.mpk`, where the prefix is `p` letters and there
/// is at least one digit.
pub open spec fn record_split(s: Seq<char>, net: Seq<char>, p: int) -> bool {
    &&& 1 <= p
    &&& p + net.len() + 7 <= s.len()
    &&& forall|i: int| 0 <= i < p ==> is_letter(#[trigger] s[i])
    &&& s[p] == '_'
    &&& s.subrange(p + 1, p + 1 + net.len()) == net
    &&& s[p + 1 + net.len()] == '_'
    &&& forall|i: int| p + net.len() + 2 <= i < s.len() - 4 ==> is_digit(#[trigger] s[i])
    &&& s.subrange(s.len() - 4, s.len() as int) == extension()
}

/// The sequence number that the file name `s` gives a checkpoint of topology `net`, if
/// `s` names one.
pub open spec fn record_seq(s: Seq<char>, net: Seq<char>) -> Option<nat> {
    if is_topology_name(net) && exists|p: int| record_split(s, net, p) {
        let p = choose|p: int| record_split(s, net, p);
        Some(digits_value(s.subrange(p + net.len() + 2, s.len() - 4)))
    } else {
        None
    }
}

/// What `extract_seq` returns: the sequence number where it fits in a `usize`.
pub open spec fn extracted_seq(s: Seq<char>, net: Seq<char>) -> Option<usize> {
    match record_seq(s, net) {
        Some(v) => if v <= usize::MAX {
            Some(v as usize)
        } else {
            None
        },
        None => None,
    }
}

/// The letters at the start of `s` end at position `p`.
pub open spec fn prefix_ends_at(s: Seq<char>, p: int) -> bool {
    &&& 0 <= p <= s.len()
    &&& forall|i: int| 0 <= i < p ==> is_letter(#[trigger] s[i])
    &&& p == s.len() || !is_letter(s[p])
}

/// The prefix of a record name ends at its first non-letter, so it is the same for every
/// reading of the name.
proof fn lemma_split_unique(s: Seq<char>, net: Seq<char>, p: int, q: int)
    requires
        prefix_ends_at(s, p),
        record_split(s, net, q),
    ensures
        p == q,
{
    if q < p {
        assert(is_letter(s[q]));
    } else if q > p {
        assert(is_letter(s[p]));
    }
}

proof fn lemma_digits_prefix(s: Seq<char>, k: int)
    requires
        0 <= k <= s.len(),
    ensures
        digits_value(s.subrange(0, k)) <= digits_value(s),
    decreases s.len() - k,
{
    if k < s.len() {
        lemma_digits_prefix(s, k + 1);
        assert(s.subrange(0, k + 1).drop_last() =~= s.subrange(0, k));
    } else {
        assert(s.subrange(0, k) =~= s);
    }
}

proof fn lemma_digit_char(d: nat)
    requires
        d < 10,
    ensures
        is_digit(digit_char(d)),
        digit_value(digit_char(d)) == d,
{
}

proof fn lemma_decimal(n: nat)
    ensures
        decimal(n).len() >= 1,
        forall|i: int| 0 <= i < decimal(n).len() ==> is_digit(#[trigger] decimal(n)[i]),
        digits_value(decimal(n)) == n,
    decreases n,
{
    lemma_digit_char(n % 10);
    let s = decimal(n);
    if n >= 10 {
        lemma_decimal(n / 10);
        assert(s.drop_last() =~= decimal(n / 10));
        assert(s.last() == digit_char(n % 10));
        assert(digits_value(s) == digits_value(s.drop_last()) * 10 + digit_value(s.last()));
        assert(n == (n / 10) * 10 + n % 10);
    } else {
        assert(s.drop_last() =~= Seq::<char>::empty());
        assert(digits_value(s) == digits_value(s.drop_last()) * 10 + digit_value(s.last()));
        assert(digits_value(Seq::<char>::empty()) == 0);
    }
}

fn is_letter_exec(c: char) -> (r: bool)
    ensures
        r == is_letter(c),
{
    ('a' <= c && c <= 'z') || ('A' <= c && c <= 'Z')
}

fn is_digit_exec(c: char) -> (r: bool)
    ensures
        r == is_digit(c),
{
    '0' <= c && c <= '9'
}

/// Reads the sequence number out of a checkpoint file name of the form
/// `<prefix>_<network_name>_<digits>.mpk`, where the prefix is letters and the topology
/// name letters and spaces. Any other name, a name of another topology, or a number
/// too large for a `usize` gives `None`.
pub fn extract_seq(filename: &str, network_name: &str) -> (r: Option<usize>)
    ensures
        r == extracted_seq(filename@, network_name@),
{
    let s = filename;
    let len = s.unicode_len();
    let net_len = network_name.unicode_len();
    if net_len == 0 {
        return None;
    }
    let mut k: usize = 0;
    while k < net_len
        invariant
            net_len == network_name@.len(),
            k <= net_len,
            forall|i: int| 0 <= i < k ==> is_name_char(#[trigger] network_name@[i]),
        decreases net_len - k,
    {
        let c = network_name.get_char(k);
        if !(is_letter_exec(c) || c == ' ') {
            assert(!is_name_char(network_name@[k as int]));
            return None;
        }
        k = k + 1;
    }
    assert(is_topology_name(network_name@));
    let ghost net = network_name@;
    let mut p: usize = 0;
    while p < len && is_letter_exec(s.get_char(p))
        invariant
            s@ == filename@,
            len == s@.len(),
            p <= len,
            forall|i: int| 0 <= i < p ==> is_letter(#[trigger] s@[i]),
        decreases len - p,
    {
        p = p + 1;
    }
    // Every reading of the name has its prefix end at `p`.
    assert(prefix_ends_at(s@, p as int));
    if p == 0 || net_len > len || p > len - net_len || len - net_len - p < 7 {
        proof {
            if exists|q: int| record_split(s@, net, q) {
                let q = choose|q: int| record_split(s@, net, q);
                lemma_split_unique(s@, net, p as int, q);
            }
        }
        return None;
    }
    if s.get_char(p) != '_' || s.get_char(p + 1 + net_len) != '_' {
        proof {
            if exists|q: int| record_split(s@, net, q) {
                let q = choose|q: int| record_split(s@, net, q);
                lemma_split_unique(s@, net, p as int, q);
            }
        }
        return None;
    }
    let mut k: usize = 0;
    while k < net_len
        invariant
            s@ == filename@,
            len == s@.len(),
            net_len == net.len(),
            net == network_name@,
            p + net_len + 7 <= len,
            prefix_ends_at(s@, p as int),
            k <= net_len,
            forall|i: int| 0 <= i < k ==> s@[p + 1 + i] == net[i],
        decreases net_len - k,
    {
        let c1 = s.get_char(p + 1 + k);
        let c2 = network_name.get_char(k);
        if c1 != c2 {
            proof {
                if exists|q: int| record_split(s@, net, q) {
                    let q = choose|q: int| record_split(s@, net, q);
                    lemma_split_unique(s@, net, p as int, q);
                    assert(s@.subrange(p + 1, p + 1 + net.len())[k as int] == s@[p + 1 + k]);
                }
            }
            return None;
        }
        k = k + 1;
    }
    assert(s@.subrange(p + 1, p + 1 + net.len()) =~= net);
    if s.get_char(len - 4) != '.' || s.get_char(len - 3) != 'm' || s.get_char(len - 2) != 'p'
        || s.get_char(len - 1) != 'k' {
        proof {
            if exists|q: int| record_split(s@, net, q) {
                let q = choose|q: int| record_split(s@, net, q);
                lemma_split_unique(s@, net, p as int, q);
                let ext = s@.subrange(len - 4, len as int);
                assert(ext[0] == s@[len - 4]);
                assert(ext[1] == s@[len - 3]);
                assert(ext[2] == s@[len - 2]);
                assert(ext[3] == s@[len - 1]);
            }
        }
        return None;
    }
    assert(s@.subrange(len - 4, len as int) =~= extension());
    let d = p + net_len + 2;
    let end = len - 4;
    let ghost digits = s@.subrange(d as int, end as int);
    let mut value: usize = 0;
    let mut i: usize = d;
    while i < end
        invariant
            s@ == filename@,
            len == s@.len(),
            d <= i <= end,
            end == len - 4,
            d == p + net.len() + 2,
            net == network_name@,
            prefix_ends_at(s@, p as int),
            p >= 1,
            p + net.len() + 7 <= len,
            s@[p as int] == '_',
            s@[p + 1 + net.len()] == '_',
            s@.subrange(p + 1, p + 1 + net.len()) == net,
            s@.subrange(len - 4, len as int) == extension(),
            is_topology_name(net),
            digits == s@.subrange(d as int, end as int),
            forall|j: int| d <= j < i ==> is_digit(#[trigger] s@[j]),
            value == digits_value(s@.subrange(d as int, i as int)),
        decreases end - i,
    {
        let c = s.get_char(i);
        if !is_digit_exec(c) {
            proof {
                if exists|q: int| record_split(s@, net, q) {
                    let q = choose|q: int| record_split(s@, net, q);
                    lemma_split_unique(s@, net, p as int, q);
                    assert(is_digit(s@[i as int]));
                }
            }
            return None;
        }
        let dv = (c as u32 - '0' as u32) as usize;
        proof {
            assert(s@.subrange(d as int, i + 1).drop_last() =~= s@.subrange(d as int, i as int));
            assert(s@.subrange(d as int, i + 1).last() == c);
            assert(digits_value(s@.subrange(d as int, i + 1)) == value * 10 + dv);
        }
        match value.checked_mul(10) {
            Some(v10) => match v10.checked_add(dv) {
                Some(v) => {
                    value = v;
                },
                None => {
                    proof {
                        assert(digits.subrange(0, i + 1 - d) =~= s@.subrange(d as int, i + 1));
                        lemma_digits_prefix(digits, i + 1 - d);
                        if exists|q: int| record_split(s@, net, q) {
                            let q = choose|q: int| record_split(s@, net, q);
                            lemma_split_unique(s@, net, p as int, q);
                        }
                    }
                    return None;
                },
            },
            None => {
                proof {
                    assert(digits.subrange(0, i + 1 - d) =~= s@.subrange(d as int, i + 1));
                    lemma_digits_prefix(digits, i + 1 - d);
                    if exists|q: int| record_split(s@, net, q) {
                        let q = choose|q: int| record_split(s@, net, q);
                        lemma_split_unique(s@, net, p as int, q);
                    }
                }
                return None;
            },
        }
        i = i + 1;
    }
    proof {
        assert(record_split(s@, net, p as int));
        let q = choose|q: int| record_split(s@, net, q);
        lemma_split_unique(s@, net, p as int, q);
    }
    Some(value)
}

/// The one-character string of a decimal digit.
fn digit_str(d: usize) -> (r: &'static str)
    requires
        d < 10,
    ensures
        r@ == seq![digit_char(d as nat)],
{
    if d == 0 {
        proof {
            reveal_strlit("0");
        }
        "0"
    } else if d == 1 {
        proof {
            reveal_strlit("1");
        }
        "1"
    } else if d == 2 {
        proof {
            reveal_strlit("2");
        }
        "2"
    } else if d == 3 {
        proof {
            reveal_strlit("3");
        }
        "3"
    } else if d == 4 {
        proof {
            reveal_strlit("4");
        }
        "4"
    } else if d == 5 {
        proof {
            reveal_strlit("5");
        }
        "5"
    } else if d == 6 {
        proof {
            reveal_strlit("6");
        }
        "6"
    } else if d == 7 {
        proof {
            reveal_strlit("7");
        }
        "7"
    } else if d == 8 {
        proof {
            reveal_strlit("8");
        }
        "8"
    } else {
        proof {
            reveal_strlit("9");
        }
        "9"
    }
}

/// Appends the decimal digits of `n` to `s`.
fn push_decimal(s: &mut String, n: usize)
    ensures
        final(s)@ == old(s)@ + decimal(n as nat),
    decreases n,
{
    if n >= 10 {
        push_decimal(s, n / 10);
    }
    let ghost before = s@;
    s.append(digit_str(n % 10));
    proof {
        if n >= 10 {
            assert(decimal(n as nat) == decimal((n / 10) as nat).push(digit_char((n % 10) as nat)));
            assert(s@ =~= old(s)@ + decimal(n as nat));
        } else {
            assert(s@ =~= old(s)@ + decimal(n as nat));
        }
    }
}

/// The record name of the checkpoint with sequence number `i` of a topology:
/// `best_<network_name>_<i>`.
pub fn ai_naming(network_name: &str, i: usize) -> (r: String)
    ensures
        r@ == record_name(network_name@, i as nat),
{
    let mut s = String::new();
    proof {
        reveal_strlit("best_");
        reveal_strlit("_");
    }
    s.append("best_");
    s.append(network_name);
    s.append("_");
    push_decimal(&mut s, i);
    assert(s@ =~= record_name(network_name@, i as nat));
    s
}

/// The file that holds the checkpoint with sequence number `i` of a topology:
/// its record name with the checkpoint extension.
pub fn record_file_name(network_name: &str, i: usize) -> (r: String)
    ensures
        r@ == record_file(network_name@, i as nat),
{
    let mut s = ai_naming(network_name, i);
    proof {
        reveal_strlit(".mpk");
    }
    s.append(".mpk");
    assert(s@ =~= record_file(network_name@, i as nat));
    s
}

/// Reading back the sequence number from the file name of a checkpoint gives the number
/// it was saved under.
pub proof fn lemma_record_round_trip(net: Seq<char>, n: nat)
    requires
        is_topology_name(net),
    ensures
        record_seq(record_file(net, n), net) == Some(n),
        n <= usize::MAX ==> extracted_seq(record_file(net, n), net) == Some(n as usize),
{
    let s = record_file(net, n);
    let dec = decimal(n);
    lemma_decimal(n);
    let l = net.len() as int;
    assert(s.len() == l + dec.len() + 10);
    assert(s[0] == 'b' && s[1] == 'e' && s[2] == 's' && s[3] == 't' && s[4] == '_');
    assert forall|i: int| 0 <= i < 4 implies is_letter(#[trigger] s[i]) by {}
    assert(s.subrange(5, 5 + l) =~= net);
    assert(s[5 + l] == '_');
    assert(s.subrange(6 + l, s.len() - 4) =~= dec);
    assert forall|i: int| 6 + l <= i < s.len() - 4 implies is_digit(#[trigger] s[i]) by {
        assert(s[i] == dec[i - 6 - l]);
    }
    assert(s.subrange(s.len() - 4, s.len() as int) =~= extension());
    assert(record_split(s, net, 4));
    assert(prefix_ends_at(s, 4));
    let q = choose|q: int| record_split(s, net, q);
    lemma_split_unique(s, net, 4, q);
}

/// The names among `names` that are checkpoint files of topology `net`, each with its
/// sequence number, in the order given.
pub open spec fn parsed_records(names: Seq<String>, net: Seq<char>) -> Seq<(usize, String)>
    decreases names.len(),
{
    if names.len() == 0 {
        Seq::empty()
    } else {
        let rest = parsed_records(names.drop_last(), net);
        match extracted_seq(names.last()@, net) {
            Some(v) => rest.push((v, names.last())),
            None => rest,
        }
    }
}

/// The number of records that a listing of at most `max_count` holds.
pub open spec fn listed_count(available: nat, max_count: nat) -> nat {
    if max_count < available {
        max_count
    } else {
        available
    }
}

/// `r` lists the checkpoint records of topology `net` among `names`, most recent first
/// and at most `max_count` of them: it is the start of some ordering, by sequence
/// number from the largest, of all those records. Every other name is skipped.
pub open spec fn is_recent_listing(
    names: Seq<String>,
    net: Seq<char>,
    max_count: nat,
    r: Seq<String>,
) -> bool {
    &&& r.len() == listed_count(parsed_records(names, net).len(), max_count)
    &&& r.len() <= max_count
    &&& exists|ranked: Seq<(usize, String)>|
        #[trigger] is_descending(ranked) && ranked.to_multiset() == parsed_records(
            names,
            net,
        ).to_multiset() && r == ranked.take(r.len() as int).map_values(|p: (usize, String)| p.1)
            && forall|k: int|
            0 <= k < ranked.len() ==> extracted_seq((#[trigger] ranked[k]).1@, net) == Some(
                ranked[k].0,
            )
}

proof fn lemma_parsed_records_parse(names: Seq<String>, net: Seq<char>)
    ensures
        forall|k: int|
            0 <= k < parsed_records(names, net).len() ==> extracted_seq(
                (#[trigger] parsed_records(names, net)[k]).1@,
                net,
            ) == Some(parsed_records(names, net)[k].0),
    decreases names.len(),
{
    if names.len() > 0 {
        lemma_parsed_records_parse(names.drop_last(), net);
    }
}

/// The checkpoint records of topology `network_name` among `file_names`, most recent
/// first, at most `max_count` of them. Names that are no record of that topology are
/// skipped. Records with equal sequence numbers come in no set order.
pub fn recent_records(file_names: &Vec<String>, network_name: &str, max_count: usize) -> (r: Vec<
    String,
>)
    ensures
        is_recent_listing(file_names@, network_name@, max_count as nat, r@),
{
    let mut records: Vec<(usize, String)> = Vec::new();
    let mut i: usize = 0;
    while i < file_names.len()
        invariant
            i <= file_names@.len(),
            records@ == parsed_records(file_names@.take(i as int), network_name@),
        decreases file_names@.len() - i,
    {
        proof {
            assert(file_names@.take(i + 1).drop_last() =~= file_names@.take(i as int));
            assert(file_names@.take(i + 1).last() == file_names@[i as int]);
        }
        match extract_seq(file_names[i].as_str(), network_name) {
            Some(v) => {
                records.push((v, file_names[i].clone()));
            },
            None => {},
        }
        i = i + 1;
    }
    assert(file_names@.take(file_names@.len() as int) =~= file_names@);
    let ghost parsed = records@;
    let sorted = sort_descending(records);
    let n = if max_count < sorted.len() {
        max_count
    } else {
        sorted.len()
    };
    let mut r: Vec<String> = Vec::with_capacity(n);
    let mut k: usize = 0;
    while k < n
        invariant
            n <= sorted@.len(),
            k <= n,
            r@.len() == k,
            forall|j: int| 0 <= j < k ==> #[trigger] r@[j] == sorted@[j].1,
        decreases n - k,
    {
        r.push(sorted[k].1.clone());
        k = k + 1;
    }
    let ghost ranked = sorted@;
    proof {
        assert(r@ =~= ranked.take(n as int).map_values(|p: (usize, String)| p.1));
        lemma_parsed_records_parse(file_names@, network_name@);
        parsed.to_multiset_ensures();
        ranked.to_multiset_ensures();
        assert forall|k: int| 0 <= k < ranked.len() implies extracted_seq(
            (#[trigger] ranked[k]).1@,
            network_name@,
        ) == Some(ranked[k].0) by {
            assert(ranked.contains(ranked[k]));
            assert(ranked.to_multiset().count(ranked[k]) > 0);
            assert(parsed.to_multiset().count(ranked[k]) > 0);
            assert(parsed.contains(ranked[k]));
            let j = choose|j: int| 0 <= j < parsed.len() && parsed[j] == ranked[k];
            assert(parsed[j] == parsed_records(file_names@, network_name@)[j]);
        }
        assert(is_descending(ranked));
    }
    r
}

/// Lists what a checkpoint directory holds for one's own topology.
pub trait ListableAI {
    /// The name of the topology whose records are listed.
    spec fn topology(&self) -> Seq<char>;

    /// The checkpoint records among `file_names` that belong to this network, most
    /// recent first, at most `MAX_RECENT` of them.
    fn list(&self, file_names: &Vec<String>) -> (r: Vec<String>)
        ensures
            is_recent_listing(file_names@, self.topology(), MAX_RECENT as nat, r@),
    ;
}

impl<T: Copy> ListableAI for Genome<T> {
    open spec fn topology(&self) -> Seq<char> {
        self@.network
    }

    fn list(&self, file_names: &Vec<String>) -> (r: Vec<String>) {
        recent_records(file_names, self.network_name(), MAX_RECENT)
    }
}

} // verus!
