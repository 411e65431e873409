use vstd::prelude::*;
use vstd::string::*;

use crate::registry::{
    entries_view, entry_count, table_of, value_key, Dumper, EntriesView, Namespace, OffsetEntry,
};

verus! {

/// The character of a decimal or hexadecimal digit (upper case letters).
pub open spec fn digit_char(d: nat) -> char {
    if d < 10 {
        (d + 48) as char
    } else {
        (d + 55) as char
    }
}

/// The digits of `n` in `base`, most significant first, without leading zeros
/// (`"0"` for zero).
pub open spec fn digits(n: nat, base: nat) -> Seq<char>
    recommends
        base >= 2,
    decreases n,
{
    if base < 2 || n < base {
        seq![digit_char(n)]
    } else {
        proof {
            assert(n / base < n) by (nonlinear_arith)
                requires
                    base >= 2,
                    n >= base,
            ;
        }
        digits(n / base, base) + seq![digit_char(n % base)]
    }
}

pub open spec fn dec_chars(n: nat) -> Seq<char> {
    digits(n, 10)
}

/// Upper-case hexadecimal, as `{:X}` prints it.
pub open spec fn hex_chars(n: nat) -> Seq<char> {
    digits(n, 16)
}

fn digit_str(d: u128) -> (s: &'static str)
    requires
        d < 16,
    ensures
        s@ == seq![digit_char(d as nat)],
{
    proof {
        reveal_strlit("0");
        reveal_strlit("1");
        reveal_strlit("2");
        reveal_strlit("3");
        reveal_strlit("4");
        reveal_strlit("5");
        reveal_strlit("6");
        reveal_strlit("7");
        reveal_strlit("8");
        reveal_strlit("9");
        reveal_strlit("A");
        reveal_strlit("B");
        reveal_strlit("C");
        reveal_strlit("D");
        reveal_strlit("E");
        reveal_strlit("F");
    }
    let s = if d == 0 {
        "0"
    } else if d == 1 {
        "1"
    } else if d == 2 {
        "2"
    } else if d == 3 {
        "3"
    } else if d == 4 {
        "4"
    } else if d == 5 {
        "5"
    } else if d == 6 {
        "6"
    } else if d == 7 {
        "7"
    } else if d == 8 {
        "8"
    } else if d == 9 {
        "9"
    } else if d == 10 {
        "A"
    } else if d == 11 {
        "B"
    } else if d == 12 {
        "C"
    } else if d == 13 {
        "D"
    } else if d == 14 {
        "E"
    } else {
        "F"
    };
    assert(s@ =~= seq![digit_char(d as nat)]);
    s
}

/// Appends the digits of `n` in `base` (10 or 16).
pub fn push_digits(out: &mut String, n: u128, base: u128)
    requires
        base == 10 || base == 16,
    ensures
        final(out)@ == old(out)@ + digits(n as nat, base as nat),
    decreases n,
{
    if n >= base {
        push_digits(out, n / base, base);
        out.append(digit_str(n % base));
        assert(final(out)@ =~= old(out)@ + digits(n as nat, base as nat));
    } else {
        out.append(digit_str(n));
    }
}

/// The head of every generated offsets file.
pub open spec fn header_text(count: nat, elapsed_ms: nat) -> Seq<char> {
    "// ===========================\n// Turners Dumper\n// Discord @grfq\n// ===========================\n// "@
        + dec_chars(count) + " offsets in "@ + dec_chars(elapsed_ms) + "ms\n// auto-generated, do not edit\n//\n\n"@
}

pub fn build_header(count: usize, elapsed_ms: u128) -> (s: String)
    ensures
        s@ == header_text(count as nat, elapsed_ms as nat),
{
    let mut s = String::from_str(
        "// ===========================\n// Turners Dumper\n// Discord @grfq\n// ===========================\n// ",
    );
    push_digits(&mut s, count as u128, 10);
    s.append(" offsets in ");
    push_digits(&mut s, elapsed_ms, 10);
    s.append("ms\n// auto-generated, do not edit\n//\n\n");
    assert(s@ =~= header_text(count as nat, elapsed_ms as nat));
    s
}

/// The comment that follows an offset when a sample value was kept for it.
pub open spec fn value_suffix(values: Map<Seq<char>, u64>, ns: Seq<char>, name: Seq<char>) -> Seq<char> {
    if values.contains_key(value_key(ns, name)) {
        " # "@ + dec_chars(values[value_key(ns, name)] as nat)
    } else {
        Seq::empty()
    }
}

/// `" # <value>"` when a sample value is kept for `ns`/`name`, else empty.
pub fn get_val(d: &Dumper, ns: &str, name: &str) -> (s: String)
    requires
        d.wf(),
    ensures
        s@ == value_suffix(d@.values, ns@, name@),
{
    match d.get_value(ns, name) {
        Some(v) => {
            let mut s = String::from_str(" # ");
            push_digits(&mut s, v as u128, 10);
            s
        },
        None => String::new(),
    }
}

/// The three output formats.
#[derive(Clone, Copy, PartialEq, Eq, Structural)]
pub enum Style {
    Rust,
    Cpp,
    Python,
}

pub open spec fn preamble(style: Style) -> Seq<char> {
    match style {
        Style::Rust => Seq::empty(),
        Style::Cpp => "#include <cstdint>\n\nnamespace offsets {\n"@,
        Style::Python => "\"\"\"\nTurners Dumper\nDiscord @grfq\n\nauto-generated, do not edit\n\"\"\"\n\n"@,
    }
}

pub open spec fn postamble(style: Style) -> Seq<char> {
    match style {
        Style::Cpp => "} // namespace offsets\n"@,
        _ => Seq::empty(),
    }
}

pub open spec fn ns_open(style: Style, ns: Seq<char>) -> Seq<char> {
    match style {
        Style::Rust => "pub mod "@ + ns + " {\n"@,
        Style::Cpp => "    // "@ + ns + "\n"@,
        Style::Python => "# "@ + ns + "\n"@,
    }
}

pub open spec fn ns_close(style: Style) -> Seq<char> {
    match style {
        Style::Rust => "}\n\n"@,
        _ => "\n"@,
    }
}

pub open spec fn line_lead(style: Style) -> Seq<char> {
    match style {
        Style::Rust => "    pub const "@,
        Style::Cpp => "    constexpr std::uintptr_t "@,
        Style::Python => Seq::empty(),
    }
}

pub open spec fn line_mid(style: Style) -> Seq<char> {
    match style {
        Style::Rust => ": usize = 0x"@,
        _ => " = 0x"@,
    }
}

pub open spec fn line_end(style: Style) -> Seq<char> {
    match style {
        Style::Python => Seq::empty(),
        _ => ";"@,
    }
}

/// One offset's line.
pub open spec fn entry_line(
    style: Style,
    values: Map<Seq<char>, u64>,
    ns: Seq<char>,
    e: (Seq<char>, usize),
) -> Seq<char> {
    line_lead(style) + e.0 + line_mid(style) + hex_chars(e.1 as nat) + line_end(style) + value_suffix(
        values,
        ns,
        e.0,
    ) + "\n"@
}

pub open spec fn entry_lines(
    style: Style,
    values: Map<Seq<char>, u64>,
    ns: Seq<char>,
    es: EntriesView,
) -> Seq<char>
    decreases es.len(),
{
    if es.len() == 0 {
        Seq::empty()
    } else {
        entry_lines(style, values, ns, es.drop_last()) + entry_line(style, values, ns, es.last())
    }
}

pub open spec fn ns_blocks(
    style: Style,
    values: Map<Seq<char>, u64>,
    t: Seq<(Seq<char>, EntriesView)>,
) -> Seq<char>
    decreases t.len(),
{
    if t.len() == 0 {
        Seq::empty()
    } else {
        ns_blocks(style, values, t.drop_last()) + ns_open(style, t.last().0) + entry_lines(
            style,
            values,
            t.last().0,
            t.last().1,
        ) + ns_close(style)
    }
}

/// A whole offsets file: header, the format's preamble, one block per
/// namespace in ascending name order, and the format's closing text.
pub open spec fn rendered(
    style: Style,
    header: Seq<char>,
    t: Seq<(Seq<char>, EntriesView)>,
    values: Map<Seq<char>, u64>,
) -> Seq<char> {
    header + preamble(style) + ns_blocks(style, values, t) + postamble(style)
}

fn push_entry_line(out: &mut String, style: Style, d: &Dumper, ns: &str, e: &OffsetEntry)
    requires
        d.wf(),
    ensures
        final(out)@ == old(out)@ + entry_line(style, d@.values, ns@, (e.name@, e.offset)),
{
    match style {
        Style::Rust => out.append("    pub const "),
        Style::Cpp => out.append("    constexpr std::uintptr_t "),
        Style::Python => {},
    }
    out.append(e.name.as_str());
    match style {
        Style::Rust => out.append(": usize = 0x"),
        _ => out.append(" = 0x"),
    }
    push_digits(out, e.offset as u128, 16);
    match style {
        Style::Python => {},
        _ => out.append(";"),
    }
    let v = get_val(d, ns, e.name.as_str());
    out.append(v.as_str());
    out.append("\n");
    proof {
        assert(final(out)@ =~= old(out)@ + entry_line(style, d@.values, ns@, (e.name@, e.offset)));
    }
}

/// Renders every registered offset in one of the three formats.
pub fn render(d: &Dumper, header: &str, style: Style) -> (s: String)
    requires
        d.wf(),
    ensures
        s@ == rendered(style, header@, d.table(), d@.values),
{
    let mut out = String::from_str(header);
    match style {
        Style::Rust => {},
        Style::Cpp => out.append("#include <cstdint>\n\nnamespace offsets {\n"),
        Style::Python => out.append(
            "\"\"\"\nTurners Dumper\nDiscord @grfq\n\nauto-generated, do not edit\n\"\"\"\n\n",
        ),
    }
    let ghost start = out@;
    let nss = d.namespaces();
    let ghost t = d.table();
    let n = nss.len();
    let mut i: usize = 0;
    assert(t.take(0) =~= Seq::<(Seq<char>, EntriesView)>::empty());
    while i < n
        invariant
            i <= n,
            n == nss@.len(),
            table_of(nss@) == t,
            t == d.table(),
            d.wf(),
            out@ == start + ns_blocks(style, d@.values, t.take(i as int)),
        decreases n - i,
    {
        let ns = &nss[i];
        let nm = ns.name.as_str();
        assert(t[i as int] == (ns.name@, entries_view(ns.entries@)));
        let ghost before = out@;
        match style {
            Style::Rust => {
                out.append("pub mod ");
                out.append(nm);
                out.append(" {\n");
            },
            Style::Cpp => {
                out.append("    // ");
                out.append(nm);
                out.append("\n");
            },
            Style::Python => {
                out.append("# ");
                out.append(nm);
                out.append("\n");
            },
        }
        assert(out@ =~= before + ns_open(style, ns.name@));
        let ghost mid = out@;
        let es = &ns.entries;
        let ghost ev = entries_view(es@);
        let m = es.len();
        let mut k: usize = 0;
        assert(ev.take(0) =~= Seq::<(Seq<char>, usize)>::empty());
        while k < m
            invariant
                k <= m,
                m == es@.len(),
                ev == entries_view(es@),
                d.wf(),
                nm@ == ns.name@,
                out@ == mid + entry_lines(style, d@.values, ns.name@, ev.take(k as int)),
            decreases m - k,
        {
            push_entry_line(&mut out, style, d, nm, &es[k]);
            proof {
                assert(ev[k as int] == (es@[k as int].name@, es@[k as int].offset));
                assert(ev.take(k + 1).drop_last() =~= ev.take(k as int));
                assert(out@ =~= mid + entry_lines(style, d@.values, ns.name@, ev.take(k + 1)));
            }
            k = k + 1;
        }
        assert(ev.take(m as int) =~= ev);
        match style {
            Style::Rust => out.append("}\n\n"),
            _ => out.append("\n"),
        }
        proof {
            assert(t.take(i + 1).drop_last() =~= t.take(i as int));
            assert(t.take(i + 1).last() == t[i as int]);
            assert(out@ =~= start + ns_blocks(style, d@.values, t.take(i + 1)));
        }
        i = i + 1;
    }
    assert(t.take(n as int) =~= t);
    match style {
        Style::Cpp => out.append("} // namespace offsets\n"),
        _ => {},
    }
    assert(out@ =~= rendered(style, header@, t, d@.values));
    out
}

/// The number of offsets registered, over all namespaces.
pub fn total_offsets(d: &Dumper) -> (n: usize)
    requires
        d.wf(),
        entry_count(d.table()) <= usize::MAX,
    ensures
        n == entry_count(d.table()),
{
    let nss = d.namespaces();
    let ghost t = d.table();
    let len = nss.len();
    let mut i: usize = 0;
    let mut total: usize = 0;
    while i < len
        invariant
            i <= len,
            len == nss@.len(),
            table_of(nss@) == t,
            entry_count(t) <= usize::MAX,
            total == entry_count(t.take(i as int)),
        decreases len - i,
    {
        proof {
            assert(t.take(i + 1).drop_last() =~= t.take(i as int));
            lemma_entry_count_prefix(t, i + 1);
            assert(t[i as int].1.len() == nss@[i as int].entries@.len());
        }
        total = total + nss[i].entries.len();
        i = i + 1;
    }
    assert(t.take(len as int) =~= t);
    total
}

proof fn lemma_entry_count_prefix(t: Seq<(Seq<char>, EntriesView)>, k: int)
    requires
        0 <= k <= t.len(),
    ensures
        entry_count(t.take(k)) <= entry_count(t),
    decreases t.len() - k,
{
    if k < t.len() {
        lemma_entry_count_prefix(t, k + 1);
        assert(t.take(k + 1).drop_last() =~= t.take(k));
    } else {
        assert(t.take(k) =~= t);
    }
}

} // verus!
