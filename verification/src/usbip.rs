use vstd::prelude::*;
use vstd::string::{StringExecFns, StrSliceExecFns};
use crate::packet::texts;
use crate::text::{char_texts, lines, words, trim_end_colons, chars_of, split, split_words, trim_colons, string_of, push_char, separator, split_by, non_empty, is_white_space, lemma_split_after_separator, lemma_split_without_separator};

verus! {

/// The word that opens each port line of `usbip port`.
pub open spec fn port_word() -> Seq<char> {
    seq!['P', 'o', 'r', 't']
}

/// The port a line of `usbip port` output names: a line whose first word
/// begins with `Port` names its second word, trailing colons removed.
pub open spec fn port_of_line(line: Seq<char>) -> Option<Seq<char>> {
    let w = words(line);
    if w.len() >= 2 && w[0].len() >= 4 && w[0].take(4) == port_word() {
        Some(trim_end_colons(w[1]))
    } else {
        None
    }
}

/// The ports that the output of `usbip port` lists, in order.
pub open spec fn listed_ports(output: Seq<char>) -> Seq<Seq<char>> {
    lines(output).filter_map(|line: Seq<char>| port_of_line(line))
}

/// The port a line names, as a list of at most one port.
pub open spec fn port_seq(line: Seq<char>) -> Seq<Seq<char>> {
    match port_of_line(line) {
        Some(p) => seq![p],
        None => Seq::empty(),
    }
}

/// Law: the output is read line by line, and every line counts, the last
/// one too whether or not a line feed ends it: a line `l` written after a
/// text `t` that is empty or ends with a line feed adds the port `l` names
/// (if any) after the ports of `t`.
pub proof fn lemma_ports_line_by_line(t: Seq<char>, l: Seq<char>)
    requires
        t.len() == 0 || t.last() == '\n',
        forall|i: int| 0 <= i < l.len() ==> #[trigger] l[i] != '\n',
    ensures
        listed_ports(t + l) == listed_ports(t) + port_seq(l),
{
    let sep = separator(true);
    lemma_split_after_separator(t, l, sep);
    lemma_split_without_separator(l, sep);
    lemma_split_after_separator(t, Seq::<char>::empty(), sep);
    assert(t + Seq::<char>::empty() =~= t);
    let p = lines(t).drop_last();
    let e = Seq::<char>::empty();
    lemma_split_without_separator(e, sep);
    assert(lines(t + l) =~= p.push(l));
    assert(lines(t) =~= p.push(e));
    assert(p.push(l).drop_last() =~= p);
    assert(p.push(e).drop_last() =~= p);
    assert(port_of_line(e) is None) by {
        lemma_split_without_separator(e, separator(false));
        reveal_with_fuel(Seq::filter, 2);
        assert(words(e).len() == 0);
    }
}

proof fn lemma_empty_line_lists_nothing()
    ensures
        port_of_line(Seq::<char>::empty()) is None,
        listed_ports(Seq::<char>::empty()) == Seq::<Seq<char>>::empty(),
{
    let e = Seq::<char>::empty();
    lemma_split_without_separator(e, separator(false));
    lemma_split_without_separator(e, separator(true));
    reveal_with_fuel(Seq::filter, 2);
    assert(words(e).len() == 0);
    assert(lines(e).drop_last() =~= Seq::<Seq<char>>::empty());
    reveal_with_fuel(Seq::filter_map, 2);
}

/// Law: a single line, with or without a line feed after it, lists just
/// the port it names.
pub proof fn lemma_one_line_lists_its_port(l: Seq<char>)
    requires
        forall|i: int| 0 <= i < l.len() ==> #[trigger] l[i] != '\n',
    ensures
        listed_ports(l) == port_seq(l),
        listed_ports(l.push('\n')) == port_seq(l),
{
    let e = Seq::<char>::empty();
    lemma_empty_line_lists_nothing();
    lemma_ports_line_by_line(e, l);
    assert(e + l =~= l);
    let t = l.push('\n');
    assert(t.drop_last() =~= l);
    assert(lines(t) == lines(l).push(e));
    assert(lines(l).push(e).drop_last() =~= lines(l));
}

/// The pieces of a text after its first character, split at white space
/// (none for an empty text).
spec fn pieces_after_first(r: Seq<char>) -> Seq<Seq<char>> {
    if r.len() == 0 {
        Seq::empty()
    } else {
        split_by(r.drop_first(), separator(false))
    }
}

proof fn lemma_split_port_line(q: Seq<char>, c: Seq<char>, r: Seq<char>)
    requires
        forall|i: int| 0 <= i < q.len() ==> !is_white_space(#[trigger] q[i]),
        c == Seq::<char>::empty() || c == seq![':'],
        r.len() == 0 || is_white_space(r[0]),
    ensures
        split_by(port_word() + seq![' '] + q + c + r, separator(false)) == seq![port_word(), q + c]
            + pieces_after_first(r),
{
    let ws = separator(false);
    let l = port_word() + seq![' '] + q + c + r;
    let a1 = port_word() + seq![' '];
    let qc = q + c;
    let b1 = qc + r;
    assert(l =~= a1 + b1);
    assert forall|i: int| 0 <= i < qc.len() implies !ws(#[trigger] qc[i]) by {
        if i >= q.len() {
            assert(qc[i] == ':');
        } else {
            assert(qc[i] == q[i]);
        }
    }
    lemma_split_without_separator(qc, ws);
    lemma_split_without_separator(port_word(), ws);
    assert(a1.drop_last() =~= port_word());
    lemma_split_after_separator(a1, b1, ws);
    assert(split_by(b1, ws) == seq![qc] + pieces_after_first(r)) by {
        if r.len() == 0 {
            assert(b1 =~= qc);
        } else {
            let a2 = qc.push(r[0]);
            assert(a2.drop_last() =~= qc);
            assert(b1 =~= a2 + r.drop_first());
            lemma_split_after_separator(a2, r.drop_first(), ws);
            assert(split_by(a2, ws).drop_last() =~= seq![qc]);
        }
    }
    assert(split_by(a1, ws).drop_last() =~= seq![port_word()]);
    assert(seq![port_word()] + (seq![qc] + pieces_after_first(r)) =~= seq![port_word(), qc]
        + pieces_after_first(r));
}

proof fn lemma_two_words_kept(a: Seq<char>, b: Seq<char>)
    requires
        a.len() > 0,
        b.len() > 0,
    ensures
        seq![a, b].filter(non_empty()) == seq![a, b],
{
    reveal_with_fuel(Seq::filter, 3);
    assert(seq![a, b].drop_last() =~= seq![a]);
    assert(seq![a].drop_last() =~= Seq::<Seq<char>>::empty());
    assert(seq![a, b].filter(non_empty()) =~= seq![a, b]);
}

proof fn lemma_port_line_words(q: Seq<char>, c: Seq<char>, r: Seq<char>)
    requires
        q.len() > 0,
        forall|i: int| 0 <= i < q.len() ==> !is_white_space(#[trigger] q[i]),
        c == Seq::<char>::empty() || c == seq![':'],
        r.len() == 0 || is_white_space(r[0]),
    ensures
        words(port_word() + seq![' '] + q + c + r)[0] == port_word(),
        words(port_word() + seq![' '] + q + c + r)[1] == q + c,
        words(port_word() + seq![' '] + q + c + r).len() >= 2,
{
    lemma_split_port_line(q, c, r);
    let front = seq![port_word(), q + c];
    let rest = pieces_after_first(r);
    lemma_two_words_kept(port_word(), q + c);
    Seq::filter_distributes_over_add(front, rest, non_empty());
    let w = front + rest.filter(non_empty());
    assert(w[0] == port_word());
    assert(w[1] == q + c);
}

/// Law: a line `Port <q>` or `Port <q>:`, where the port `q` holds no white
/// space, followed by nothing or by white space and any further text on the
/// same line, lists the port `q` (as in `Port 00: <Port in Use> at ...`).
pub proof fn lemma_port_line_lists_its_port(q: Seq<char>, c: Seq<char>, r: Seq<char>)
    requires
        q.len() > 0,
        forall|i: int| 0 <= i < q.len() ==> !is_white_space(#[trigger] q[i]),
        q.last() != ':',
        c == Seq::<char>::empty() || c == seq![':'],
        forall|i: int| 0 <= i < r.len() ==> #[trigger] r[i] != '\n',
        r.len() == 0 || is_white_space(r[0]),
    ensures
        listed_ports(port_word() + seq![' '] + q + c + r) == seq![q],
{
    let l = port_word() + seq![' '] + q + c + r;
    let qc = q + c;
    lemma_port_line_words(q, c, r);
    assert(port_word().take(4) =~= port_word());
    assert(trim_end_colons(qc) == q) by {
        if c.len() > 0 {
            assert(qc.drop_last() =~= q);
        } else {
            assert(qc =~= q);
        }
        reveal_with_fuel(trim_end_colons, 2);
    }
    assert(port_seq(l) == seq![q]);
    assert forall|i: int| 0 <= i < l.len() implies #[trigger] l[i] != '\n' by {
        if 5 <= i < 5 + q.len() {
            assert(l[i] == q[i - 5]);
            assert(!is_white_space(q[i - 5]));
        } else if i >= 5 + qc.len() {
            assert(l[i] == r[i - 5 - qc.len()]);
        }
    }
    lemma_one_line_lists_its_port(l);
}

/// The decimal digit for `d < 10`.
pub open spec fn digit_char(d: nat) -> char {
    (d + 48) as char
}

/// The decimal writing of `n`, without leading zeros.
pub open spec fn decimal(n: nat) -> Seq<char>
    decreases n,
{
    if n < 10 {
        seq![digit_char(n)]
    } else {
        decimal(n / 10).push(digit_char(n % 10))
    }
}

/// Whether `c` is one of the digits `0` to `9`.
pub open spec fn is_digit(c: char) -> bool {
    48 <= (c as u32) <= 57
}

/// The number a string of decimal digits stands for, read in base ten.
pub open spec fn decimal_value(s: Seq<char>) -> int
    decreases s.len(),
{
    if s.len() == 0 {
        0
    } else {
        decimal_value(s.drop_last()) * 10 + ((s.last() as u32) as int - 48)
    }
}

/// Law: `decimal(n)` is the base-ten writing of `n`: it is made of digits
/// only, reading them in base ten gives back `n`, and it has no leading
/// zero (`0` itself is written `0`), as `to_string` writes numbers.
pub proof fn lemma_decimal_reads_back(n: nat)
    ensures
        decimal(n).len() >= 1,
        forall|i: int| 0 <= i < decimal(n).len() ==> is_digit(#[trigger] decimal(n)[i]),
        decimal_value(decimal(n)) == n,
        n == 0 ==> decimal(n) == seq!['0'],
        n > 0 ==> decimal(n)[0] != '0',
    decreases n,
{
    if n < 10 {
        assert(decimal(n) == seq![digit_char(n)]);
        assert(seq![digit_char(n)].drop_last() =~= Seq::<char>::empty());
        assert(decimal_value(Seq::<char>::empty()) == 0);
        assert((digit_char(n) as u32) == n + 48);
        if n == 0 {
            assert(digit_char(0) == '0');
        }
    } else {
        let d = n % 10;
        lemma_decimal_reads_back(n / 10);
        let front = decimal(n / 10);
        assert(decimal(n) == front.push(digit_char(d)));
        assert(front.push(digit_char(d)).drop_last() =~= front);
        assert((digit_char(d) as u32) == d + 48);
        assert(n == (n / 10) * 10 + d) by {
            vstd::arithmetic::div_mod::lemma_fundamental_div_mod(n as int, 10);
        }
        assert(decimal(n)[0] == front[0]);
        assert forall|i: int| 0 <= i < decimal(n).len() implies is_digit(#[trigger] decimal(n)[i]) by {
            if i < front.len() {
                assert(decimal(n)[i] == front[i]);
            }
        }
    }
}

/// The name of an input device node (`eventN`) begins with `event`.
pub open spec fn event_prefix() -> Seq<char> {
    seq!['e', 'v', 'e', 'n', 't']
}

/// The arguments of `usbip` that attach device `busid` of the server at
/// address `server` through its USB/IP port `tcp_port`.
pub open spec fn attach_command(tcp_port: u16, server: Seq<char>, busid: Seq<char>) -> Seq<Seq<char>> {
    seq!["--tcp-port"@, decimal(tcp_port as nat), "attach"@, "-r"@, server, "-b"@, busid]
}

/// Whether the first word of a line begins with `Port`.
fn begins_with_port(w: &Vec<char>) -> (r: bool)
    ensures
        r == (w@.len() >= 4 && w@.take(4) == port_word()),
{
    if w.len() >= 4 && w[0] == 'P' && w[1] == 'o' && w[2] == 'r' && w[3] == 't' {
        assert(w@.take(4) =~= port_word());
        true
    } else {
        assert(w@.len() >= 4 ==> w@.take(4)[0] == w@[0] && w@.take(4)[1] == w@[1]
            && w@.take(4)[2] == w@[2] && w@.take(4)[3] == w@[3]);
        false
    }
}

/// The port named by one line of `usbip port` output, if any.
fn line_port(line: &Vec<char>) -> (r: Option<String>)
    ensures
        match r {
            Some(p) => port_of_line(line@) == Some(p@),
            None => port_of_line(line@) is None,
        },
{
    let w = split_words(line);
    if w.len() >= 2 && begins_with_port(&w[0]) {
        assert(char_texts(w@)[0] == w@[0]@);
        assert(char_texts(w@)[1] == w@[1]@);
        let port = trim_colons(&w[1]);
        Some(string_of(&port))
    } else {
        assert(w.len() >= 1 ==> char_texts(w@)[0] == w@[0]@);
        None
    }
}

/// The ports that the output of `usbip port` lists: for every line whose
/// first word begins with `Port`, its second word without trailing colons.
pub fn parse_ports(output: &str) -> (ports: Vec<String>)
    ensures
        texts(ports@) == listed_ports(output@),
{
    let chars = chars_of(output);
    let all = split(&chars, true);
    let mut ports: Vec<String> = Vec::new();
    let mut i: usize = 0;
    while i < all.len()
        invariant
            i <= all.len(),
            char_texts(all@) == lines(output@),
            texts(ports@) == char_texts(all@).take(i as int).filter_map(
                |line: Seq<char>| port_of_line(line),
            ),
        decreases all.len() - i,
    {
        let found = line_port(&all[i]);
        proof {
            char_texts(all@).lemma_filter_map_take_succ(|line: Seq<char>| port_of_line(line), i as int);
            assert(char_texts(all@)[i as int] == all@[i as int]@);
        }
        match found {
            Some(p) => {
                ports.push(p);
            },
            None => {},
        }
        proof {
            assert(texts(ports@) =~= char_texts(all@).take(i + 1).filter_map(
                |line: Seq<char>| port_of_line(line),
            ));
        }
        i += 1;
    }
    assert(char_texts(all@).take(all.len() as int) =~= char_texts(all@));
    ports
}

fn push_decimal(s: &mut String, n: u16)
    ensures
        final(s)@ == old(s)@ + decimal(n as nat),
    decreases n,
{
    let ghost start = s@;
    if n >= 10 {
        push_decimal(s, n / 10);
    }
    let d: u8 = (n % 10) as u8;
    push_char(s, (d + 48) as char);
    assert(s@ =~= start + decimal(n as nat));
}

/// The decimal writing of `n`, as `to_string` gives it.
pub fn decimal_string(n: u16) -> (s: String)
    ensures
        s@ == decimal(n as nat),
{
    let mut s = String::new();
    push_decimal(&mut s, n);
    assert(s@ =~= decimal(n as nat));
    s
}

/// The arguments of `usbip` that attach device `busid` of the server at
/// address `server`, whose USB/IP daemon listens on `tcp_port`.
pub fn attach_args(tcp_port: u16, server: &str, busid: &str) -> (args: Vec<String>)
    ensures
        texts(args@) == attach_command(tcp_port, server@, busid@),
{
    let mut args: Vec<String> = Vec::new();
    args.push(String::from_str("--tcp-port"));
    args.push(decimal_string(tcp_port));
    args.push(String::from_str("attach"));
    args.push(String::from_str("-r"));
    args.push(String::from_str(server));
    args.push(String::from_str("-b"));
    args.push(String::from_str(busid));
    assert(texts(args@) =~= attach_command(tcp_port, server@, busid@));
    args
}

/// The arguments of `usbip` that list the attached ports.
pub fn port_list_args() -> (args: Vec<String>)
    ensures
        texts(args@) == seq!["port"@],
{
    let mut args: Vec<String> = Vec::new();
    args.push(String::from_str("port"));
    assert(texts(args@) =~= seq!["port"@]);
    args
}

/// The arguments of `usbip` that detach port `port`.
pub fn detach_args(port: &str) -> (args: Vec<String>)
    ensures
        texts(args@) == seq!["detach"@, "-p"@, port@],
{
    let mut args: Vec<String> = Vec::new();
    args.push(String::from_str("detach"));
    args.push(String::from_str("-p"));
    args.push(String::from_str(port));
    assert(texts(args@) =~= seq!["detach"@, "-p"@, port@]);
    args
}

/// The arguments of `usbipd` that bind device `busid` for export.
pub fn bind_args(busid: &str) -> (args: Vec<String>)
    ensures
        texts(args@) == seq!["bind"@, busid@],
{
    let mut args: Vec<String> = Vec::new();
    args.push(String::from_str("bind"));
    args.push(String::from_str(busid));
    assert(texts(args@) =~= seq!["bind"@, busid@]);
    args
}

/// Whether a file in the input-device directory is an event node: its name
/// begins with `event`.
pub fn is_event_node(name: &str) -> (r: bool)
    ensures
        r == (name@.len() >= 5 && name@.take(5) == event_prefix()),
{
    let n = name.unicode_len();
    if n < 5 {
        return false;
    }
    let r = name.get_char(0) == 'e' && name.get_char(1) == 'v' && name.get_char(2) == 'e'
        && name.get_char(3) == 'n' && name.get_char(4) == 't';
    assert(r ==> name@.take(5) =~= event_prefix());
    assert(name@.take(5) == event_prefix() ==> name@.take(5)[0] == name@[0] && name@.take(5)[1]
        == name@[1] && name@.take(5)[2] == name@[2] && name@.take(5)[3] == name@[3] && name@.take(
        5,
    )[4] == name@[4]);
    r
}

} // verus!
