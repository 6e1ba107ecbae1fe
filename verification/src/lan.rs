//! The daemon's LAN address, as picked from the output of `ipconfig`.
use vstd::prelude::*;
use vstd::std_specs::iter::IteratorSpec;
use vstd::string::StringExecFns;
use vstd::string::StrSliceExecFns;

verus! {

broadcast use vstd::string::group_string_axioms;

/// Whether `c` is white space, as `char::is_whitespace` decides: the
/// characters with the Unicode `White_Space` property.
pub open spec fn is_space(c: char) -> bool {
    ||| c == ' '
    ||| ('\t' <= c && c <= '\r')
    ||| c == '\u{85}'
    ||| c == '\u{a0}'
    ||| c == '\u{1680}'
    ||| ('\u{2000}' <= c && c <= '\u{200a}')
    ||| c == '\u{2028}'
    ||| c == '\u{2029}'
    ||| c == '\u{202f}'
    ||| c == '\u{205f}'
    ||| c == '\u{3000}'
}

/// The position of the first newline at or after `i`, or the end.
pub open spec fn newline_at(s: Seq<char>, i: int) -> int
    decreases s.len() - i,
{
    if i >= s.len() {
        s.len() as int
    } else if s[i] == '\n' {
        i
    } else {
        newline_at(s, i + 1)
    }
}

/// The newline search from `i` ends at `i` or later, and within `s`.
pub proof fn lemma_newline_at_bounds(s: Seq<char>, i: int)
    requires
        0 <= i <= s.len(),
    ensures
        i <= newline_at(s, i) <= s.len(),
        newline_at(s, i) < s.len() ==> s[newline_at(s, i)] == '\n',
    decreases s.len() - i,
{
    if i < s.len() && s[i] != '\n' {
        lemma_newline_at_bounds(s, i + 1);
    }
}

/// A line without the carriage return that ended it, if any.
pub open spec fn without_cr(line: Seq<char>) -> Seq<char> {
    if line.len() > 0 && line.last() == '\r' {
        line.drop_last()
    } else {
        line
    }
}

/// The lines of `s` from position `start` on, as `str::lines` gives them:
/// split at newlines, a carriage return before a newline dropped, and no
/// empty line after a final newline.
pub open spec fn text_lines(s: Seq<char>, start: int) -> Seq<Seq<char>>
    decreases s.len() - start,
{
    if start >= s.len() || start < 0 {
        Seq::empty()
    } else {
        let p = newline_at(s, start);
        proof {
            lemma_newline_at_bounds(s, start);
        }
        if p >= s.len() {
            seq![s.subrange(start, s.len() as int)]
        } else {
            seq![without_cr(s.subrange(start, p))] + text_lines(s, p + 1)
        }
    }
}

/// Whether `pat` occurs in `s`.
pub open spec fn contains_text(s: Seq<char>, pat: Seq<char>) -> bool {
    exists|i: int| 0 <= i && i + pat.len() <= s.len() && #[trigger] s.subrange(i, i + pat.len()) == pat
}

/// Whether `s` begins with `p`.
pub open spec fn starts_with(s: Seq<char>, p: Seq<char>) -> bool {
    p.len() <= s.len() && s.take(p.len() as int) == p
}

/// What follows the last colon of a line (the whole line if it has none),
/// as `split(':').last()` gives it.
pub open spec fn after_last_colon(line: Seq<char>) -> Seq<char>
    decreases line.len(),
{
    if line.len() == 0 {
        line
    } else if line.last() == ':' {
        Seq::empty()
    } else {
        after_last_colon(line.drop_last()).push(line.last())
    }
}

/// `s` without its leading white space.
pub open spec fn trim_start(s: Seq<char>) -> Seq<char>
    decreases s.len(),
{
    if s.len() > 0 && is_space(s[0]) {
        trim_start(s.drop_first())
    } else {
        s
    }
}

/// `s` without its trailing white space.
pub open spec fn trim_end(s: Seq<char>) -> Seq<char>
    decreases s.len(),
{
    if s.len() > 0 && is_space(s.last()) {
        trim_end(s.drop_last())
    } else {
        s
    }
}

/// `s` without leading and trailing white space, as `str::trim` gives it.
pub open spec fn trimmed(s: Seq<char>) -> Seq<char> {
    trim_end(trim_start(s))
}

/// Whether a line of `ipconfig` output reports an IPv4 address other than
/// the loopback one.
pub open spec fn is_address_line(line: Seq<char>) -> bool {
    contains_text(line, "IPv4 Address"@) && !contains_text(line, "127.0.0.1"@)
}

/// The address an address line reports: the text after its last colon,
/// trimmed.
pub open spec fn address_field(line: Seq<char>) -> Seq<char> {
    trimmed(after_last_colon(line))
}

/// Whether an address is in one of the private ranges the daemon prefers
/// (`192.168.` or `10.`).
pub open spec fn is_preferred(ip: Seq<char>) -> bool {
    starts_with(ip, "192.168."@) || starts_with(ip, "10."@)
}

/// The addresses the address lines among `lines` report, in order.
pub open spec fn reported_addresses(lines: Seq<Seq<char>>) -> Seq<Seq<char>>
    decreases lines.len(),
{
    if lines.len() == 0 {
        Seq::empty()
    } else {
        let earlier = reported_addresses(lines.drop_last());
        if is_address_line(lines.last()) {
            earlier.push(address_field(lines.last()))
        } else {
            earlier
        }
    }
}

/// The first preferred address of a list, if any.
pub open spec fn first_preferred(ips: Seq<Seq<char>>) -> Option<Seq<char>>
    decreases ips.len(),
{
    if ips.len() == 0 {
        None
    } else {
        match first_preferred(ips.drop_last()) {
            Some(ip) => Some(ip),
            None => if is_preferred(ips.last()) {
                Some(ips.last())
            } else {
                None
            },
        }
    }
}

/// The LAN address `ipconfig` output gives: the first reported address in
/// a preferred range, else the first reported address, else none.
pub open spec fn lan_choice(output: Seq<char>) -> Option<Seq<char>> {
    let ips = reported_addresses(text_lines(output, 0));
    match first_preferred(ips) {
        Some(ip) => Some(ip),
        None => if ips.len() > 0 {
            Some(ips[0])
        } else {
            None
        },
    }
}

/// The characters of a text, one by one.
fn chars_of(s: &str) -> (r: Vec<char>)
    ensures
        r@ == s@,
{
    let mut out: Vec<char> = Vec::new();
    for c in it: s.chars()
        invariant
            it.seq() == s@,
            out@ == it.seq().take(it.index() as int),
    {
        out.push(c);
        assert(out@ =~= it.seq().take(it.index() + 1));
    }
    assert(out@ =~= s@);
    out
}

/// Whether `c` is white space (see `is_space`).
fn is_space_char(c: char) -> (r: bool)
    ensures
        r == is_space(c),
{
    c == ' ' || ('\t' <= c && c <= '\r') || c == '\u{85}' || c == '\u{a0}' || c == '\u{1680}' || (
    '\u{2000}' <= c && c <= '\u{200a}') || c == '\u{2028}' || c == '\u{2029}' || c == '\u{202f}' || c
        == '\u{205f}' || c == '\u{3000}'
}

/// Whether `pat` occurs in `cs` at position `pos`.
fn matches_at(cs: &Vec<char>, pos: usize, pat: &Vec<char>) -> (r: bool)
    requires
        pos + pat@.len() <= cs@.len(),
    ensures
        r == (cs@.subrange(pos as int, pos + pat@.len()) == pat@),
{
    let n = cs.len();
    let mut j: usize = 0;
    while j < pat.len()
        invariant
            n == cs@.len(),
            pos + pat@.len() <= cs@.len(),
            j <= pat@.len(),
            forall|k: int| 0 <= k < j ==> cs@[pos + k] == pat@[k],
        decreases pat@.len() - j,
    {
        if cs[pos + j] != pat[j] {
            assert(cs@.subrange(pos as int, pos + pat@.len())[j as int] != pat@[j as int]);
            return false;
        }
        j = j + 1;
    }
    assert(cs@.subrange(pos as int, pos + pat@.len()) =~= pat@);
    true
}

/// Whether `pat` occurs in the characters `cs[lo..hi]`.
fn contains_in(cs: &Vec<char>, lo: usize, hi: usize, pat: &Vec<char>) -> (r: bool)
    requires
        lo <= hi <= cs@.len(),
    ensures
        r == contains_text(cs@.subrange(lo as int, hi as int), pat@),
{
    let ghost sub = cs@.subrange(lo as int, hi as int);
    let plen = pat.len();
    if plen > hi - lo {
        return false;
    }
    if plen == 0 {
        assert(sub.subrange(0int, 0int + pat@.len()) =~= pat@);
        return true;
    }
    let n = cs.len();
    let mut i: usize = 0;
    while i <= hi - lo - plen
        invariant
            n == cs@.len(),
            lo <= hi <= cs@.len(),
            plen == pat@.len(),
            0 < plen <= hi - lo,
            sub == cs@.subrange(lo as int, hi as int),
            i <= hi - lo - plen + 1,
            forall|k: int| 0 <= k < i ==> #[trigger] sub.subrange(k, k + plen) != pat@,
        decreases hi - lo - plen + 1 - i,
    {
        if matches_at(cs, lo + i, pat) {
            assert(sub.subrange(i as int, i + plen) =~= cs@.subrange(lo + i, lo + i + plen));
            return true;
        }
        assert(sub.subrange(i as int, i + plen) =~= cs@.subrange(lo + i, lo + i + plen));
        i = i + 1;
    }
    false
}

/// Where the text after the last colon of `cs[lo..hi]` starts.
fn after_colon_start(cs: &Vec<char>, lo: usize, hi: usize) -> (a: usize)
    requires
        lo <= hi <= cs@.len(),
    ensures
        lo <= a <= hi,
        after_last_colon(cs@.subrange(lo as int, hi as int)) == cs@.subrange(a as int, hi as int),
{
    let mut j: usize = hi;
    while j > lo && cs[j - 1] != ':'
        invariant
            lo <= j <= hi <= cs@.len(),
            after_last_colon(cs@.subrange(lo as int, hi as int)) == after_last_colon(
                cs@.subrange(lo as int, j as int),
            ) + cs@.subrange(j as int, hi as int),
        decreases j - lo,
    {
        let ghost line = cs@.subrange(lo as int, j as int);
        assert(line.drop_last() =~= cs@.subrange(lo as int, j - 1));
        assert(line.last() == cs@[j - 1]);
        assert(after_last_colon(line) == after_last_colon(line.drop_last()).push(line.last()));
        assert(after_last_colon(line.drop_last()).push(line.last()) + cs@.subrange(j as int, hi as int)
            =~= after_last_colon(cs@.subrange(lo as int, j - 1)) + cs@.subrange(j - 1, hi as int));
        j = j - 1;
    }
    if j > lo {
        let ghost line = cs@.subrange(lo as int, j as int);
        assert(line.last() == ':');
        assert(after_last_colon(line) == Seq::<char>::empty());
        assert(Seq::<char>::empty() + cs@.subrange(j as int, hi as int) =~= cs@.subrange(j as int, hi as int));
    } else {
        assert(cs@.subrange(lo as int, j as int) =~= Seq::<char>::empty());
        assert(Seq::<char>::empty() + cs@.subrange(j as int, hi as int) =~= cs@.subrange(j as int, hi as int));
    }
    j
}

/// The bounds of `cs[lo..hi]` without leading and trailing white space.
fn trim_range(cs: &Vec<char>, lo: usize, hi: usize) -> (r: (usize, usize))
    requires
        lo <= hi <= cs@.len(),
    ensures
        lo <= r.0 <= r.1 <= hi,
        trimmed(cs@.subrange(lo as int, hi as int)) == cs@.subrange(r.0 as int, r.1 as int),
{
    let mut i: usize = lo;
    while i < hi && is_space_char(cs[i])
        invariant
            lo <= i <= hi <= cs@.len(),
            trim_start(cs@.subrange(lo as int, hi as int)) == trim_start(cs@.subrange(i as int, hi as int)),
        decreases hi - i,
    {
        assert(cs@.subrange(i as int, hi as int).drop_first() =~= cs@.subrange(i + 1, hi as int));
        i = i + 1;
    }
    assert(trim_start(cs@.subrange(i as int, hi as int)) == cs@.subrange(i as int, hi as int));
    let mut j: usize = hi;
    while j > i && is_space_char(cs[j - 1])
        invariant
            lo <= i <= j <= hi <= cs@.len(),
            trim_end(cs@.subrange(i as int, hi as int)) == trim_end(cs@.subrange(i as int, j as int)),
        decreases j - i,
    {
        assert(cs@.subrange(i as int, j as int).drop_last() =~= cs@.subrange(i as int, j - 1));
        assert(cs@.subrange(i as int, j as int).last() == cs@[j - 1]);
        j = j - 1;
    }
    if j > i {
        assert(cs@.subrange(i as int, j as int).last() == cs@[j - 1]);
    }
    assert(trim_end(cs@.subrange(i as int, j as int)) == cs@.subrange(i as int, j as int));
    (i, j)
}

/// Whether `cs[lo..hi]` begins with `p`.
fn has_prefix(cs: &Vec<char>, lo: usize, hi: usize, p: &Vec<char>) -> (r: bool)
    requires
        lo <= hi <= cs@.len(),
    ensures
        r == starts_with(cs@.subrange(lo as int, hi as int), p@),
{
    if p.len() > hi - lo {
        return false;
    }
    let r = matches_at(cs, lo, p);
    assert(cs@.subrange(lo as int, hi as int).take(p@.len() as int) =~= cs@.subrange(lo as int, lo + p@.len()));
    r
}

/// The addresses reported by two runs of lines are those of the first run,
/// then those of the second.
pub proof fn lemma_reported_append(x: Seq<Seq<char>>, y: Seq<Seq<char>>)
    ensures
        reported_addresses(x + y) == reported_addresses(x) + reported_addresses(y),
    decreases y.len(),
{
    if y.len() == 0 {
        assert(x + y =~= x);
        assert(reported_addresses(x) + reported_addresses(y) =~= reported_addresses(x));
    } else {
        lemma_reported_append(x, y.drop_last());
        assert((x + y).drop_last() =~= x + y.drop_last());
        assert((x + y).last() == y.last());
        if is_address_line(y.last()) {
            let f = address_field(y.last());
            assert(reported_addresses(x) + reported_addresses(y.drop_last()).push(f) =~= (reported_addresses(x)
                + reported_addresses(y.drop_last())).push(f));
        }
    }
}

/// Once a list has a preferred address, more addresses after it do not
/// change which one is first.
pub proof fn lemma_first_preferred_append(a: Seq<Seq<char>>, b: Seq<Seq<char>>)
    requires
        first_preferred(a) is Some,
    ensures
        first_preferred(a + b) == first_preferred(a),
    decreases b.len(),
{
    if b.len() == 0 {
        assert(a + b =~= a);
    } else {
        lemma_first_preferred_append(a, b.drop_last());
        assert((a + b).drop_last() =~= a + b.drop_last());
    }
}

/// Picks the daemon's LAN address from the output of `ipconfig` (see
/// `lan_choice`): among the lines that report an IPv4 address other than
/// 127.0.0.1, the first whose address is in 192.168.x.x or 10.x.x.x, else
/// the first; `None` when no line reports one.
pub fn lan_ip_from_ipconfig(output: &str) -> (r: Option<String>)
    ensures
        match r {
            Some(ip) => lan_choice(output@) == Some(ip@),
            None => lan_choice(output@) is None,
        },
        ({
            let ips = reported_addresses(text_lines(output@, 0));
            &&& forall|k: int|
                0 <= k < ips.len() && (starts_with(#[trigger] ips[k], "192.168."@) || starts_with(ips[k], "10."@))
                    && (forall|j: int| 0 <= j < k ==> !starts_with(#[trigger] ips[j], "192.168."@) && !starts_with(ips[j], "10."@))
                    ==> (r matches Some(ip) && ip@ == ips[k])
            &&& (forall|j: int| 0 <= j < ips.len() ==> !starts_with(#[trigger] ips[j], "192.168."@) && !starts_with(ips[j], "10."@))
                ==> (if ips.len() > 0 { r matches Some(ip) && ip@ == ips[0] } else { r is None })
        }),
{
    let r = lan_choice_of(output);
    proof {
        lemma_lan_choice_first_private(output@);
    }
    r
}

/// The LAN address of `ipconfig` output as `lan_choice` describes it.
fn lan_choice_of(output: &str) -> (r: Option<String>)
    ensures
        match r {
            Some(ip) => lan_choice(output@) == Some(ip@),
            None => lan_choice(output@) is None,
        },
{
    let cs = chars_of(output);
    let marker = chars_of("IPv4 Address");
    let loopback = chars_of("127.0.0.1");
    let private_a = chars_of("192.168.");
    let private_b = chars_of("10.");
    let n = cs.len();
    let mut start: usize = 0;
    let mut first: Option<(usize, usize)> = None;
    let ghost mut done: Seq<Seq<char>> = Seq::empty();
    assert(done + text_lines(cs@, 0) =~= text_lines(cs@, 0));
    while start < n
        invariant
            n == cs@.len(),
            cs@ == output@,
            marker@ == "IPv4 Address"@,
            loopback@ == "127.0.0.1"@,
            private_a@ == "192.168."@,
            private_b@ == "10."@,
            start <= n,
            text_lines(cs@, 0) == done + text_lines(cs@, start as int),
            first_preferred(reported_addresses(done)) is None,
            match first {
                None => reported_addresses(done).len() == 0,
                Some((a, b)) => a <= b <= n && reported_addresses(done).len() > 0 && cs@.subrange(a as int, b as int)
                    == reported_addresses(done)[0],
            },
        decreases n - start,
    {
        let mut p = start;
        while p < n && cs[p] != '\n'
            invariant
                start <= p <= n,
                n == cs@.len(),
                newline_at(cs@, start as int) == newline_at(cs@, p as int),
            decreases n - p,
        {
            p = p + 1;
        }
        proof {
            lemma_newline_at_bounds(cs@, start as int);
            assert(newline_at(cs@, p as int) == p);
        }
        let end = if p < n && p > start && cs[p - 1] == '\r' {
            p - 1
        } else {
            p
        };
        let next = if p < n {
            p + 1
        } else {
            n
        };
        let ghost line = cs@.subrange(start as int, end as int);
        proof {
            if p >= n {
                assert(text_lines(cs@, start as int) == seq![line]);
                assert(text_lines(cs@, next as int) == Seq::<Seq<char>>::empty());
            } else {
                let full = cs@.subrange(start as int, p as int);
                if p > start && cs@[p - 1] == '\r' {
                    assert(full.drop_last() =~= line);
                }
                assert(line == without_cr(full));
                assert(text_lines(cs@, start as int) == seq![line] + text_lines(cs@, next as int));
            }
            assert(done + text_lines(cs@, start as int) =~= done.push(line) + text_lines(cs@, next as int));
            assert(done.push(line).drop_last() =~= done);
        }
        let ghost done0 = done;
        proof {
            done = done.push(line);
            assert(done.drop_last() == done0);
            assert(done.last() == line);
        }
        if contains_in(&cs, start, end, &marker) && !contains_in(&cs, start, end, &loopback) {
            let a0 = after_colon_start(&cs, start, end);
            let (a, b) = trim_range(&cs, a0, end);
            assert(is_address_line(line));
            assert(cs@.subrange(a as int, b as int) == address_field(line));
            proof {
                let f = address_field(line);
                assert(reported_addresses(done) == reported_addresses(done0).push(f));
                assert(reported_addresses(done0).push(f).drop_last() =~= reported_addresses(done0));
                assert(reported_addresses(done0).push(f).last() == f);
            }
            if has_prefix(&cs, a, b, &private_a) || has_prefix(&cs, a, b, &private_b) {
                proof {
                    let rest = text_lines(cs@, next as int);
                    assert(first_preferred(reported_addresses(done)) == Some(address_field(line)));
                    lemma_reported_append(done, rest);
                    lemma_first_preferred_append(reported_addresses(done), reported_addresses(rest));
                }
                return Some(String::from_str(output.substring_char(a, b)));
            }
            if first.is_none() {
                first = Some((a, b));
            }
        } else {
            assert(!is_address_line(line));
            assert(reported_addresses(done) == reported_addresses(done0));
        }
        start = next;
    }
    proof {
        assert(text_lines(cs@, start as int) == Seq::<Seq<char>>::empty());
        assert(done + Seq::<Seq<char>>::empty() =~= done);
    }
    match first {
        Some((a, b)) => Some(String::from_str(output.substring_char(a, b))),
        None => None,
    }
}

/// The first preferred address of a list is one of its addresses and is
/// preferred; there is one whenever the list holds a preferred address.
pub proof fn lemma_first_preferred_found(ips: Seq<Seq<char>>)
    ensures
        first_preferred(ips) matches Some(ip) ==> ips.contains(ip) && is_preferred(ip),
        (exists|i: int| 0 <= i < ips.len() && is_preferred(#[trigger] ips[i])) ==> first_preferred(ips) is Some,
    decreases ips.len(),
{
    if ips.len() > 0 {
        let init = ips.drop_last();
        lemma_first_preferred_found(init);
        if let Some(ip) = first_preferred(init) {
            let j = choose|j: int| 0 <= j < init.len() && init[j] == ip;
            assert(ips[j] == ip);
        }
        if first_preferred(init) is None && first_preferred(ips) is Some {
            assert(ips[ips.len() - 1] == ips.last());
        }
        if exists|i: int| 0 <= i < ips.len() && is_preferred(#[trigger] ips[i]) {
            let i = choose|i: int| 0 <= i < ips.len() && is_preferred(#[trigger] ips[i]);
            if i < ips.len() - 1 {
                assert(init[i] == ips[i]);
            }
        }
    }
}

/// The chosen LAN address is always one that a line of the output reported,
/// and it is in a preferred range whenever any reported address is.
pub proof fn lemma_lan_choice_prefers_private(output: Seq<char>)
    ensures
        ({
            let ips = reported_addresses(text_lines(output, 0));
            &&& lan_choice(output) matches Some(ip) ==> ips.contains(ip)
            &&& lan_choice(output) is None <==> ips.len() == 0
            &&& (exists|i: int| 0 <= i < ips.len() && is_preferred(#[trigger] ips[i])) ==> (lan_choice(output) matches Some(
                ip,
            ) && is_preferred(ip))
        }),
{
    let ips = reported_addresses(text_lines(output, 0));
    lemma_first_preferred_found(ips);
    if first_preferred(ips) is None && ips.len() > 0 {
        assert(ips.contains(ips[0]));
    }
}

/// The first preferred address of a list is the one at the least index
/// holding a preferred address.
proof fn lemma_first_preferred_least(ips: Seq<Seq<char>>, k: int)
    requires
        0 <= k < ips.len(),
        is_preferred(ips[k]),
        forall|j: int| 0 <= j < k ==> !is_preferred(#[trigger] ips[j]),
    ensures
        first_preferred(ips) == Some(ips[k]),
    decreases ips.len(),
{
    let init = ips.drop_last();
    if k == ips.len() - 1 {
        lemma_first_preferred_found(init);
        if exists|i: int| 0 <= i < init.len() && is_preferred(#[trigger] init[i]) {
            let i = choose|i: int| 0 <= i < init.len() && is_preferred(#[trigger] init[i]);
            assert(init[i] == ips[i]);
        }
    } else {
        assert forall|j: int| 0 <= j < k implies !is_preferred(#[trigger] init[j]) by {
            assert(init[j] == ips[j]);
        }
        lemma_first_preferred_least(init, k);
        assert(init[k] == ips[k]);
    }
}

/// The LAN address the daemon picks: when some reported address begins with
/// `192.168.` or `10.`, the first reported address that does; when none
/// does, the first reported address; none when no address is reported. An
/// address beginning with neither prefix is never taken over one that
/// begins with either.
pub proof fn lemma_lan_choice_first_private(output: Seq<char>)
    ensures
        ({
            let ips = reported_addresses(text_lines(output, 0));
            &&& forall|k: int|
                0 <= k < ips.len() && (starts_with(#[trigger] ips[k], "192.168."@) || starts_with(ips[k], "10."@))
                    && (forall|j: int| 0 <= j < k ==> !starts_with(#[trigger] ips[j], "192.168."@) && !starts_with(ips[j], "10."@))
                    ==> lan_choice(output) == Some(ips[k])
            &&& (forall|j: int| 0 <= j < ips.len() ==> !starts_with(#[trigger] ips[j], "192.168."@) && !starts_with(ips[j], "10."@))
                ==> lan_choice(output) == (if ips.len() > 0 { Some(ips[0]) } else { None::<Seq<char>> })
        }),
{
    let ips = reported_addresses(text_lines(output, 0));
    assert forall|k: int|
        0 <= k < ips.len() && (starts_with(#[trigger] ips[k], "192.168."@) || starts_with(ips[k], "10."@))
            && (forall|j: int| 0 <= j < k ==> !starts_with(#[trigger] ips[j], "192.168."@) && !starts_with(ips[j], "10."@))
        implies lan_choice(output) == Some(ips[k]) by {
        assert forall|j: int| 0 <= j < k implies !is_preferred(#[trigger] ips[j]) by {
            assert(!starts_with(ips[j], "192.168."@) && !starts_with(ips[j], "10."@));
        }
        lemma_first_preferred_least(ips, k);
    }
    if forall|j: int| 0 <= j < ips.len() ==> !starts_with(#[trigger] ips[j], "192.168."@) && !starts_with(ips[j], "10."@) {
        lemma_first_preferred_found(ips);
        if exists|i: int| 0 <= i < ips.len() && is_preferred(#[trigger] ips[i]) {
            let i = choose|i: int| 0 <= i < ips.len() && is_preferred(#[trigger] ips[i]);
            assert(!starts_with(ips[i], "192.168."@) && !starts_with(ips[i], "10."@));
        }
    }
}

/// The address the daemon announces: the LAN address in the output of
/// `ipconfig` (when it could be run), else the machine's local address
/// (when it could be found), else 127.0.0.1.
pub fn server_ip_from(ipconfig_output: Option<&str>, local_ip: Option<String>) -> (r: String)
    ensures
        r@ == match (match ipconfig_output {
            Some(o) => lan_choice(o@),
            None => None,
        }) {
            Some(ip) => ip,
            None => match local_ip {
                Some(l) => l@,
                None => "127.0.0.1"@,
            },
        },
{
    if let Some(o) = ipconfig_output {
        if let Some(ip) = lan_ip_from_ipconfig(o) {
            return ip;
        }
    }
    match local_ip {
        Some(l) => l,
        None => String::from_str("127.0.0.1"),
    }
}

} // verus!
