//! The host: what it offers, and how the container's user is matched to the user on it.

use vstd::prelude::*;
use vstd::string::*;

use crate::config::DevContainerConfig;
use crate::docker::{lines, split_lines};
use crate::json::{field, json_text, opt_json, Json, JsonView, NumberView};
use crate::maps::{inserted, lemma_inserted_lookup, lookup, EnvMap};
use crate::notes::{has_pair, no_notes, pair_at, NoteView, Notes};
use crate::numbers::{
    all_digits, decimal, decimal_text, law_decimals_read_back, opt_nat, parse_number, parsed_number,
};
use crate::provision::{lower, lower_char, lowered};
use crate::text::{
    all_white, begins_with, chars_of, contains, cut_once, ends_with, finishes_with, is_digit,
    is_white_space, law_trimmed, law_words, lemma_seek, lemma_seek_pat, occurs, opt_str, opt_text,
    same_text, seek, seek_match, seek_pat, split_once, split_words, stands_at, starts_with, text_of,
    trim, trimmed, words_from,
};
use crate::texts::Texts;

verus! {

// ---------------------------------------------------------------------------------------------
// Sizes

/// A size: a number of bytes, or a decimal number with a unit of that many bytes.
#[derive(Debug, PartialEq, Eq)]
pub enum Size {
    Bytes(u64),
    Scaled(String, u64),
}

#[verifier::ext_equal]
pub enum SizeView {
    Bytes(nat),
    Scaled(Seq<char>, nat),
}

impl View for Size {
    type V = SizeView;

    open spec fn view(&self) -> SizeView {
        match self {
            Size::Bytes(n) => SizeView::Bytes(*n as nat),
            Size::Scaled(s, unit) => SizeView::Scaled(s@, *unit as nat),
        }
    }
}

pub open spec fn opt_size(o: Option<Size>) -> Option<SizeView> {
    match o {
        Some(s) => Some(s@),
        None => None,
    }
}

/// The number in front of a unit of two letters.
pub open spec fn before_unit(s: Seq<char>) -> Seq<char> {
    trimmed(s.take(s.len() - 2))
}

/// The size that a text stands for, in lower or upper case: with the unit `kb`, `mb`, `gb` or `tb`,
/// or a plain number of bytes. Whether the number in front of a unit is one is left open.
pub open spec fn size_of_text(s: Seq<char>) -> Option<SizeView> {
    let t = lowered(trimmed(s));
    if finishes_with(t, "tb"@) {
        Some(SizeView::Scaled(before_unit(t), 1099511627776))
    } else if finishes_with(t, "gb"@) {
        Some(SizeView::Scaled(before_unit(t), 1073741824))
    } else if finishes_with(t, "mb"@) {
        Some(SizeView::Scaled(before_unit(t), 1048576))
    } else if finishes_with(t, "kb"@) {
        Some(SizeView::Scaled(before_unit(t), 1024))
    } else {
        match parsed_number(t, 18446744073709551615) {
            Some(n) => Some(SizeView::Bytes(n)),
            None => None,
        }
    }
}

fn number_before_unit(s: &str) -> (res: String)
    requires
        s@.len() >= 2,
    ensures
        res@ == before_unit(s@),
{
    let v = chars_of(s);
    let number = text_of(&v, 0, v.len() - 2);
    assert(number@ =~= s@.take(s@.len() - 2));
    trim(number.as_str())
}

/// Reads a size.
pub fn parse_size(s: &str) -> (res: Option<Size>)
    ensures
        opt_size(res) == size_of_text(s@),
{
    proof {
        reveal_strlit("tb");
        reveal_strlit("gb");
        reveal_strlit("mb");
        reveal_strlit("kb");
    }
    let plain = trim(s);
    let t = lower(plain.as_str());
    let l = t.as_str();
    if ends_with(l, "tb") {
        Some(Size::Scaled(number_before_unit(l), 1099511627776))
    } else if ends_with(l, "gb") {
        Some(Size::Scaled(number_before_unit(l), 1073741824))
    } else if ends_with(l, "mb") {
        Some(Size::Scaled(number_before_unit(l), 1048576))
    } else if ends_with(l, "kb") {
        Some(Size::Scaled(number_before_unit(l), 1024))
    } else {
        match parse_number(l, 18446744073709551615) {
            Some(n) => Some(Size::Bytes(n)),
            None => None,
        }
    }
}

/// The quotient, rounded to the nearest integer, and to the even one of two that are equally near.
pub open spec fn nearest(n: nat, d: nat) -> nat {
    let q = n / d;
    let r = n % d;
    if 2 * r < d || (2 * r == d && q % 2 == 0) {
        q
    } else {
        q + 1
    }
}

/// The power of two in whose multiples a number of that size is held.
pub open spec fn grain(n: nat) -> nat
    decreases n,
{
    if n < 9007199254740992 {
        1
    } else {
        2 * grain(n / 2)
    }
}

/// The number in 53 significant bits.
pub open spec fn significant(n: nat) -> nat {
    nearest(n, grain(n)) * grain(n)
}

/// The number of units with one digit after the point.
pub open spec fn tenths_text(n: nat) -> Seq<char> {
    decimal_text(n / 10) + "."@ + decimal_text(n % 10)
}

/// A number of bytes in the largest unit that is not larger than it, with one digit after the
/// point; the number of bytes counts with 53 significant bits.
pub open spec fn bytes_text(bytes: nat) -> Seq<char> {
    if bytes >= 1099511627776 {
        tenths_text(nearest(10 * significant(bytes), 1099511627776)) + "tb"@
    } else if bytes >= 1073741824 {
        tenths_text(nearest(10 * significant(bytes), 1073741824)) + "gb"@
    } else if bytes >= 1048576 {
        tenths_text(nearest(10 * significant(bytes), 1048576)) + "mb"@
    } else if bytes >= 1024 {
        tenths_text(nearest(10 * significant(bytes), 1024)) + "kb"@
    } else {
        decimal_text(bytes) + "b"@
    }
}

fn round_quotient(n: u128, d: u128) -> (res: u128)
    requires
        0 < d <= 1099511627776,
        n <= 1000000000000000000000,
    ensures
        res == nearest(n as nat, d as nat),
        res <= n + 1,
{
    let q: u128 = n / d;
    let r: u128 = n % d;
    proof {
        assert(n / d <= n) by (nonlinear_arith)
            requires
                d > 0,
        ;
        assert(r < d);
    }
    if 2 * r < d || (2 * r == d && q % 2 == 0) {
        q
    } else {
        q + 1
    }
}

proof fn lemma_grain(n: nat)
    requires
        n < 36893488147419103232,
    ensures
        1 <= grain(n) <= 4096,
    decreases n,
{
    reveal_with_fuel(grain, 14);
}

fn grain_of(n: u64) -> (res: u64)
    ensures
        res == grain(n as nat),
        1 <= res <= 4096,
{
    let mut left: u64 = n;
    let mut g: u64 = 1;
    proof {
        lemma_grain(n as nat);
    }
    while left >= 9007199254740992
        invariant
            1 <= g,
            1 <= grain(n as nat) <= 4096,
            grain(left as nat) >= 1,
            grain(n as nat) == g * grain(left as nat),
        decreases left,
    {
        let ghost before = left as nat;
        let ghost rest = grain((left / 2) as nat);
        proof {
            lemma_grain((left / 2) as nat);
            assert(grain(before) == 2 * rest);
            assert(g * (2 * rest) == (2 * g) * rest) by (nonlinear_arith);
            assert(2 * g <= (2 * g) * rest) by (nonlinear_arith)
                requires
                    rest >= 1,
                    g >= 1,
            ;
        }
        g = 2 * g;
        left = left / 2;
    }
    assert(grain(left as nat) == 1);
    assert(g * 1 == g);
    g
}

/// The text of a number of tenths.
fn tenths(n: u64) -> (res: String)
    ensures
        res@ == tenths_text(n as nat),
{
    let whole = decimal(n / 10);
    let digit = decimal(n % 10);
    whole.concat(".").concat(digit.as_str())
}

fn in_units(bytes: u64, unit: u64) -> (res: String)
    requires
        1024 <= unit <= 1099511627776,
    ensures
        res@ == tenths_text(nearest(10 * significant(bytes as nat), unit as nat)),
{
    let g: u64 = grain_of(bytes);
    let q: u128 = round_quotient(bytes as u128, g as u128);
    proof {
        assert(q * g <= (18446744073709551616 + 0) * 4096) by (nonlinear_arith)
            requires
                q <= 18446744073709551616,
                g <= 4096,
        ;
        lemma_significant_bound(bytes as nat);
        assert(q * g == significant(bytes as nat));
    }
    let s: u128 = q * (g as u128);
    let t: u128 = round_quotient(10 * s, unit as u128);
    proof {
        assert(10 * s / (unit as int) <= 10 * s / 1024) by (nonlinear_arith)
            requires
                unit >= 1024,
                s >= 0,
        ;
    }
    tenths(t as u64)
}

/// Rounding to 53 bits changes a 64-bit number by less than one grain.
proof fn lemma_significant_bound(n: nat)
    requires
        n < 18446744073709551616,
    ensures
        significant(n) <= n + 4096,
{
    lemma_grain(n);
    let g = grain(n);
    let q = n / g;
    assert(g * q <= n && n < g * q + g) by (nonlinear_arith)
        requires
            g >= 1,
            q == n / g,
    ;
    assert((q + 1) * g == g * q + g) by (nonlinear_arith);
    assert(q * g == g * q) by (nonlinear_arith);
}

pub fn format_bytes(bytes: u64) -> (res: String)
    ensures
        res@ == bytes_text(bytes as nat),
{
    if bytes >= 1099511627776 {
        in_units(bytes, 1099511627776).concat("tb")
    } else if bytes >= 1073741824 {
        in_units(bytes, 1073741824).concat("gb")
    } else if bytes >= 1048576 {
        in_units(bytes, 1048576).concat("mb")
    } else if bytes >= 1024 {
        in_units(bytes, 1024).concat("kb")
    } else {
        decimal(bytes).concat("b")
    }
}

// ---------------------------------------------------------------------------------------------
// What the host reports

/// A number of kilobytes as bytes, where the bytes fit in 64 bits.
pub open spec fn kilobytes(s: Seq<char>) -> Option<nat> {
    match parsed_number(s, 18014398509481983) {
        Some(n) => Some(n * 1024),
        None => None,
    }
}

fn parse_kilobytes(s: &str) -> (res: Option<u64>)
    ensures
        opt_nat(res) == kilobytes(s@),
{
    match parse_number(s, 18014398509481983) {
        Some(n) => Some(n * 1024),
        None => None,
    }
}

/// The figure of one line, where the line is the one with that label.
pub open spec fn labelled_figure(line: Seq<char>, label: Seq<char>) -> Option<nat> {
    let parts = words_from(line, 0);
    if begins_with(line, label) && parts.len() >= 2 {
        kilobytes(parts[1])
    } else {
        None
    }
}

/// The last readable figure under a label.
pub open spec fn figure(v: Seq<Seq<char>>, label: Seq<char>) -> Option<nat>
    decreases v.len(),
{
    if v.len() == 0 {
        None
    } else if labelled_figure(v.last(), label) is Some {
        labelled_figure(v.last(), label)
    } else {
        figure(v.drop_last(), label)
    }
}

fn find_figure(v: &Texts, label: &str) -> (res: Option<u64>)
    ensures
        opt_nat(res) == figure(v@, label@),
{
    let mut i: usize = v.len();
    assert(v@.take(i as int) =~= v@);
    while i > 0
        invariant
            i <= v@.len(),
            figure(v@, label@) == figure(v@.take(i as int), label@),
        decreases i,
    {
        i = i - 1;
        let line = v.get(i);
        assert(v@.take(i + 1).last() == v@[i as int]);
        assert(v@.take(i + 1).drop_last() =~= v@.take(i as int));
        if starts_with(line, label) {
            let parts = split_words(line);
            if parts.len() >= 2 {
                let bytes = parse_kilobytes(parts.get(1));
                if bytes.is_some() {
                    return bytes;
                }
            }
        }
    }
    None
}

/// The memory that `/proc/meminfo` reports: what is available, or else all there is.
pub open spec fn memory_of(content: Seq<char>) -> Option<nat> {
    match figure(lines(content), "MemAvailable:"@) {
        Some(n) => Some(n),
        None => figure(lines(content), "MemTotal:"@),
    }
}

pub fn available_memory_bytes(content: &str) -> (res: Option<u64>)
    ensures
        opt_nat(res) == memory_of(content@),
{
    let all = split_lines(content);
    match find_figure(&all, "MemAvailable:") {
        Some(n) => Some(n),
        None => find_figure(&all, "MemTotal:"),
    }
}

/// The memory that `sysctl -n hw.memsize` reports.
pub fn memory_size(stdout: &str) -> (res: Option<u64>)
    ensures
        opt_nat(res) == parsed_number(trimmed(stdout@), 18446744073709551615),
{
    parse_number(trim(stdout).as_str(), 18446744073709551615)
}

/// The free space in the first line from position `i` on that has a readable figure in its fourth
/// column.
pub open spec fn free_space(v: Seq<Seq<char>>, i: int) -> Option<nat>
    decreases v.len() - i,
{
    if i < 0 || i >= v.len() {
        None
    } else if words_from(v[i], 0).len() >= 4 && kilobytes(words_from(v[i], 0)[3]) is Some {
        kilobytes(words_from(v[i], 0)[3])
    } else {
        free_space(v, i + 1)
    }
}

/// The free space that `df -k -P` reports under its heading.
pub fn available_storage_bytes(stdout: &str) -> (res: Option<u64>)
    ensures
        opt_nat(res) == free_space(lines(stdout@), 1),
{
    let all = split_lines(stdout);
    let mut i: usize = 1;
    while i < all.len()
        invariant
            1 <= i,
            all@ == lines(stdout@),
            free_space(all@, 1) == free_space(all@, i as int),
        decreases all@.len() - i,
    {
        let parts = split_words(all.get(i));
        if parts.len() >= 4 {
            let bytes = parse_kilobytes(parts.get(3));
            if bytes.is_some() {
                return bytes;
            }
        }
        i = i + 1;
    }
    None
}

/// A user or group number as `id -u` and `id -g` print it; 1000 where there is none to read.
pub open spec fn host_id_of(stdout: Seq<char>) -> nat {
    match parsed_number(trimmed(stdout), 4294967295) {
        Some(n) => n,
        None => 1000,
    }
}

pub fn parse_host_id(stdout: &str) -> (res: u32)
    ensures
        res == host_id_of(stdout@),
{
    match parse_number(trim(stdout).as_str(), 4294967295) {
        Some(n) => n as u32,
        None => 1000,
    }
}

/// The first position at or after `i` that holds no digit, or the length of the text.
pub open spec fn digits_end(s: Seq<char>, i: int) -> int
    decreases s.len() - i,
{
    if i < 0 || i >= s.len() {
        s.len() as int
    } else if is_digit(s[i]) {
        digits_end(s, i + 1)
    } else {
        i
    }
}

/// The number right behind the first place where `prefix` stands.
pub open spec fn id_after(output: Seq<char>, prefix: Seq<char>) -> Option<nat> {
    let at = seek_pat(output, prefix, 0);
    if at < output.len() {
        parsed_number(
            output.subrange(at + prefix.len(), digits_end(output, at + prefix.len())),
            4294967295,
        )
    } else {
        None
    }
}

pub open spec fn opt_id(o: Option<u32>) -> Option<nat> {
    match o {
        Some(n) => Some(n as nat),
        None => None,
    }
}

/// The user or group number in what `id` prints.
pub fn parse_id_output(output: &str, prefix: &str) -> (res: Option<u32>)
    ensures
        opt_id(res) == id_after(output@, prefix@),
{
    let v = chars_of(output);
    let p = chars_of(prefix);
    let at: usize = seek_match(&v, &p, 0);
    if at >= v.len() {
        return None;
    }
    let start: usize = at + p.len();
    let mut end: usize = start;
    while end < v.len() && v[end] >= '0' && v[end] <= '9'
        invariant
            v@ == output@,
            start <= end <= v@.len(),
            digits_end(output@, start as int) == digits_end(output@, end as int),
        decreases v@.len() - end,
    {
        end = end + 1;
    }
    let digits = text_of(&v, start, end);
    match parse_number(digits.as_str(), 4294967295) {
        Some(n) => Some(n as u32),
        None => None,
    }
}

// ---------------------------------------------------------------------------------------------
// Requirements

/// What the host offers. A figure that could not be found out counts as sufficient.
#[derive(Debug, Clone, Copy)]
pub struct HostFacts {
    pub cpus: u64,
    pub memory: Option<u64>,
    pub storage: Option<u64>,
    pub gpu: bool,
}

/// The sizes that the requirements ask for, in bytes; nothing for a size that cannot be read.
#[derive(Debug, Clone, Copy)]
pub struct RequiredSizes {
    pub memory: Option<u64>,
    pub storage: Option<u64>,
    pub gpu_memory: Option<u64>,
}

/// A warning about the requirements.
pub open spec fn requirement_warning(line: Seq<char>) -> Seq<NoteView> {
    seq![NoteView::Warning(line)]
}

pub open spec fn cpus_notes(req: JsonView, available: nat) -> Seq<NoteView> {
    match field(req, "cpus"@) {
        None => no_notes(),
        Some(j) => match unsigned(j) {
            Some(c) => (if c == 0 {
                requirement_warning("Warning: hostRequirements.cpus must be at least 1, got 0"@)
            } else {
                no_notes()
            }) + (if available < c {
                requirement_warning(
                    "Warning: hostRequirements.cpus "@ + decimal_text(c) + " required but only "@
                        + decimal_text(available) + " available"@,
                )
            } else {
                no_notes()
            }),
            None => requirement_warning(
                "Warning: hostRequirements.cpus must be an integer, got "@ + json_text(j),
            ),
        },
    }
}

/// An integer of at least zero.
pub open spec fn unsigned(j: JsonView) -> Option<nat> {
    match j {
        JsonView::Number(NumberView::PosInt(u)) => Some(u as nat),
        _ => None,
    }
}

fn as_unsigned(j: &Json) -> (res: Option<u64>)
    ensures
        opt_nat(res) == unsigned(j@),
{
    match j {
        Json::Number(n) => n.as_u64(),
        _ => None,
    }
}

/// What is said of a size, memory or storage, that is asked for.
pub open spec fn size_notes(
    name: Seq<char>,
    j: Option<JsonView>,
    required: Option<nat>,
    available: Option<nat>,
) -> Seq<NoteView> {
    match j {
        None => no_notes(),
        Some(JsonView::String(s)) => match required {
            None => requirement_warning(
                "Warning: invalid hostRequirements."@ + name + " format: "@ + s,
            ),
            Some(r) => match available {
                Some(a) => if a < r {
                    requirement_warning(
                        "Warning: hostRequirements."@ + name + " "@ + s + " required but only "@
                            + bytes_text(a) + " available"@,
                    )
                } else {
                    no_notes()
                },
                None => no_notes(),
            },
        },
        Some(other) => requirement_warning(
            "Warning: hostRequirements."@ + name + " must be a string, got "@ + json_text(other),
        ),
    }
}

/// Whether a size is given, but not as a string: no further requirement is looked at.
pub open spec fn not_a_size(j: Option<JsonView>) -> bool {
    j is Some && !(j->0 is String)
}

pub open spec fn gpu_notes(gpu: Option<JsonView>, present: bool, memory: Option<nat>) -> Seq<
    NoteView,
> {
    match gpu {
        Some(JsonView::Bool(true)) => if present {
            no_notes()
        } else {
            requirement_warning("Warning: hostRequirements.gpu required but no GPU detected"@)
        },
        Some(JsonView::Object(m)) => gpu_object_notes(JsonView::Object(m), present, memory),
        _ => no_notes(),
    }
}

pub open spec fn gpu_object_notes(gpu: JsonView, present: bool, memory: Option<nat>) -> Seq<NoteView> {
    (if present {
        no_notes()
    } else {
        requirement_warning("Warning: hostRequirements.gpu object required but no GPU detected"@)
    }) + (match field(gpu, "cores"@) {
        Some(cores) => if unsigned(cores) is None {
            requirement_warning(
                "Warning: hostRequirements.gpu.cores must be a non-negative integer, got "@
                    + json_text(cores),
            )
        } else {
            no_notes()
        },
        None => no_notes(),
    }) + (match field(gpu, "memory"@) {
        Some(JsonView::String(s)) => if memory is None {
            requirement_warning("Warning: invalid hostRequirements.gpu.memory format: "@ + s)
        } else {
            no_notes()
        },
        _ => no_notes(),
    })
}

/// What is said where the host does not meet the requirements.
pub open spec fn requirement_notes(req: JsonView, facts: HostFacts, sizes: RequiredSizes) -> Seq<
    NoteView,
> {
    let memory = field(req, "memory"@);
    let storage = field(req, "storage"@);
    cpus_notes(req, facts.cpus as nat) + size_notes(
        "memory"@,
        memory,
        opt_nat(sizes.memory),
        opt_nat(facts.memory),
    ) + (if not_a_size(memory) {
        no_notes()
    } else {
        size_notes("storage"@, storage, opt_nat(sizes.storage), opt_nat(facts.storage)) + (
        if not_a_size(storage) {
            no_notes()
        } else {
            gpu_notes(field(req, "gpu"@), facts.gpu, opt_nat(sizes.gpu_memory))
        })
    })
}

fn check_cpus(req: &Json, available: u64, notes: &mut Notes)
    ensures
        final(notes)@ == old(notes)@ + cpus_notes(req@, available as nat),
{
    assert(notes@ + no_notes() =~= notes@);
    if let Some(j) = req.get("cpus") {
        match as_unsigned(j) {
            Some(c) => {
                if c == 0 {
                    notes.warn(
                        "Warning: hostRequirements.cpus must be at least 1, got 0".to_owned(),
                    );
                }
                if available < c {
                    let wanted = decimal(c);
                    let there = decimal(available);
                    notes.warn(
                        "Warning: hostRequirements.cpus ".to_owned().concat(wanted.as_str()).concat(
                            " required but only ",
                        ).concat(there.as_str()).concat(" available"),
                    );
                }
                assert(notes@ =~= old(notes)@ + cpus_notes(req@, available as nat));
            },
            None => {
                let text = j.text();
                notes.warn(
                    "Warning: hostRequirements.cpus must be an integer, got ".to_owned().concat(
                        text.as_str(),
                    ),
                );
                assert(notes@ =~= old(notes)@ + cpus_notes(req@, available as nat));
            },
        }
    }
}

/// Says what there is to say of a size; whether the requirements after it are looked at.
fn check_size(
    name: &str,
    wanted: Option<&Json>,
    required: Option<u64>,
    available: Option<u64>,
    notes: &mut Notes,
) -> (go_on: bool)
    ensures
        final(notes)@ == old(notes)@ + size_notes(
            name@,
            opt_json(wanted),
            opt_nat(required),
            opt_nat(available),
        ),
        go_on == !not_a_size(opt_json(wanted)),
{
    assert(notes@ + no_notes() =~= notes@);
    match wanted {
        None => true,
        Some(Json::String(s)) => {
            match required {
                None => {
                    notes.warn(
                        "Warning: invalid hostRequirements.".to_owned().concat(name).concat(
                            " format: ",
                        ).concat(s.as_str()),
                    );
                },
                Some(r) => {
                    if let Some(a) = available {
                        if a < r {
                            let there = format_bytes(a);
                            notes.warn(
                                "Warning: hostRequirements.".to_owned().concat(name).concat(
                                    " ",
                                ).concat(s.as_str()).concat(" required but only ").concat(
                                    there.as_str(),
                                ).concat(" available"),
                            );
                        }
                    }
                },
            }
            true
        },
        Some(other) => {
            let text = other.text();
            notes.warn(
                "Warning: hostRequirements.".to_owned().concat(name).concat(
                    " must be a string, got ",
                ).concat(text.as_str()),
            );
            false
        },
    }
}

fn check_gpu(gpu: Option<&Json>, present: bool, memory: Option<u64>, notes: &mut Notes)
    ensures
        final(notes)@ == old(notes)@ + gpu_notes(opt_json(gpu), present, opt_nat(memory)),
{
    assert(notes@ + no_notes() =~= notes@);
    match gpu {
        Some(Json::Bool(on)) => {
            if *on && !present {
                notes.warn(
                    "Warning: hostRequirements.gpu required but no GPU detected".to_owned(),
                );
            }
        },
        Some(Json::Object(m)) => {
            check_gpu_object(gpu.unwrap(), present, memory, notes);
        },
        _ => {},
    }
}

fn check_gpu_object(gpu: &Json, present: bool, memory: Option<u64>, notes: &mut Notes)
    ensures
        final(notes)@ == old(notes)@ + gpu_object_notes(gpu@, present, opt_nat(memory)),
{
    let ghost start = notes@;
    if !present {
        notes.warn(
            "Warning: hostRequirements.gpu object required but no GPU detected".to_owned(),
        );
    }
    if let Some(cores) = gpu.get("cores") {
        if as_unsigned(cores).is_none() {
            let text = cores.text();
            notes.warn(
                "Warning: hostRequirements.gpu.cores must be a non-negative integer, got ".to_owned().concat(
                    text.as_str(),
                ),
            );
        }
    }
    if let Some(Json::String(s)) = gpu.get("memory") {
        if memory.is_none() {
            notes.warn(
                "Warning: invalid hostRequirements.gpu.memory format: ".to_owned().concat(
                    s.as_str(),
                ),
            );
        }
    }
    assert(notes@ =~= start + gpu_object_notes(gpu@, present, opt_nat(memory)));
}

/// Warns of each requirement that the host does not meet. A memory or storage requirement that is
/// no string ends the look at them.
pub fn check_host_requirements(
    req: &Json,
    facts: &HostFacts,
    sizes: &RequiredSizes,
    notes: &mut Notes,
)
    ensures
        final(notes)@ == old(notes)@ + requirement_notes(req@, *facts, *sizes),
{
    let ghost start = notes@;
    check_cpus(req, facts.cpus, notes);
    if check_size("memory", req.get("memory"), sizes.memory, facts.memory, notes) {
        if check_size("storage", req.get("storage"), sizes.storage, facts.storage, notes) {
            check_gpu(req.get("gpu"), facts.gpu, sizes.gpu_memory, notes);
        }
    }
    assert(notes@ =~= start + requirement_notes(req@, *facts, *sizes));
}

// ---------------------------------------------------------------------------------------------
// The user of the container

/// What came of a command: it could not be started, it failed with what it wrote to standard error,
/// or it went through with what it wrote to standard output.
#[derive(Debug)]
pub enum Outcome {
    NotRun(String),
    Failed(String),
    Succeeded(String),
}

/// The steps that give the container's user the numbers of the host's user.
#[derive(Debug, PartialEq, Eq)]
pub enum UidStep {
    CheckUser,
    ChangeUser,
    FindGroup,
    ChangeGroup(String),
    FindOwner,
    ChangeOwner(String),
    AddGroup,
    AddUser,
    Done,
}

#[verifier::ext_equal]
pub enum UidStepView {
    CheckUser,
    ChangeUser,
    FindGroup,
    ChangeGroup(Seq<char>),
    FindOwner,
    ChangeOwner(Seq<char>),
    AddGroup,
    AddUser,
    Done,
}

impl View for UidStep {
    type V = UidStepView;

    open spec fn view(&self) -> UidStepView {
        match self {
            UidStep::CheckUser => UidStepView::CheckUser,
            UidStep::ChangeUser => UidStepView::ChangeUser,
            UidStep::FindGroup => UidStepView::FindGroup,
            UidStep::ChangeGroup(g) => UidStepView::ChangeGroup(g@),
            UidStep::FindOwner => UidStepView::FindOwner,
            UidStep::ChangeOwner(g) => UidStepView::ChangeOwner(g@),
            UidStep::AddGroup => UidStepView::AddGroup,
            UidStep::AddUser => UidStepView::AddUser,
            UidStep::Done => UidStepView::Done,
        }
    }
}

/// The user whose numbers are changed: the remote user, or else the container's; nobody where the
/// configuration forbids it, and never `root`.
pub open spec fn uid_user(c: DevContainerConfig) -> Option<Seq<char>> {
    let user = match opt_text(c.remote_user) {
        Some(u) => Some(u),
        None => opt_text(c.container_user),
    };
    if c.update_remote_user_uid == Some(false) {
        None
    } else if user == Some("root"@) {
        None
    } else {
        user
    }
}

pub fn update_remote_user(config: &DevContainerConfig) -> (res: Option<String>)
    ensures
        opt_text(res) == uid_user(*config),
{
    if let Some(on) = config.update_remote_user_uid {
        if !on {
            return None;
        }
    }
    let user = match &config.remote_user {
        Some(u) => u,
        None => match &config.container_user {
            Some(u) => u,
            None => {
                return None;
            },
        },
    };
    if same_text(user.as_str(), "root") {
        return None;
    }
    Some(user.clone())
}

/// The user, the container and the numbers that the steps are about.
pub struct UidJob<'a> {
    pub config: &'a DevContainerConfig,
    pub container: &'a str,
    pub user: &'a str,
    pub uid: u32,
    pub gid: u32,
}

pub open spec fn begin_uid_note(user: Seq<char>, uid: nat, gid: nat, windows: bool) -> NoteView {
    if uid == 0 {
        NoteView::Warning(
            if windows {
                "Warning: UID/GID synchronization is not supported on Windows; skipping updateRemoteUserUID"@
            } else {
                "Warning: bondar is running as root; skipping updateRemoteUserUID (container user would map to uid 0)"@
            },
        )
    } else {
        NoteView::Info(
            "Updating UID/GID for user "@ + user + " to "@ + decimal_text(uid) + ":"@
                + decimal_text(gid) + " (updateRemoteUserUID)"@,
        )
    }
}

/// A number that may be missing, as it stands in a message.
pub open spec fn maybe_text(n: Option<nat>) -> Seq<char> {
    match n {
        Some(n) => "Some("@ + decimal_text(n) + ")"@,
        None => "None"@,
    }
}

fn maybe(n: Option<u32>) -> (res: String)
    ensures
        res@ == maybe_text(opt_id(n)),
{
    match n {
        Some(n) => {
            let digits = decimal(n as u64);
            "Some(".to_owned().concat(digits.as_str()).concat(")")
        },
        None => "None".to_owned(),
    }
}

/// The group that `id -g -n` names, or else one of the user's name.
pub open spec fn group_of(outcome: Outcome, user: Seq<char>) -> Seq<char> {
    match outcome {
        Outcome::Succeeded(stdout) => if trimmed(stdout@).len() > 0 {
            trimmed(stdout@)
        } else {
            user
        },
        _ => user,
    }
}

pub fn resolve_primary_group(outcome: &Outcome, user: &str) -> (res: String)
    ensures
        res@ == group_of(*outcome, user@),
{
    if let Outcome::Succeeded(stdout) = outcome {
        let group = trim(stdout.as_str());
        if group.as_str().unicode_len() > 0 {
            return group;
        }
    }
    user.to_owned()
}

/// Whether a message says that something is not there.
pub open spec fn says_missing(stderr: Seq<char>) -> bool {
    occurs(lowered(stderr), "no such"@)
}

fn is_missing(stderr: &str) -> (res: bool)
    ensures
        res == says_missing(stderr@),
{
    let low = lower(stderr);
    contains(low.as_str(), "no such")
}

impl<'a> UidJob<'a> {
    pub open spec fn same_ids(&self, stdout: Seq<char>) -> bool {
        id_after(stdout, "uid="@) == Some(self.uid as nat) && id_after(stdout, "gid="@) == Some(
            self.gid as nat,
        )
    }

    /// The step that hands the workspace folder over to the user. The root directory, which is the
    /// default with Docker Compose, is never handed over.
    pub open spec fn owner_step(&self) -> UidStepView {
        if self.config.reference_target() == "/"@ {
            UidStepView::Done
        } else {
            UidStepView::FindOwner
        }
    }

    pub open spec fn owner_notes(&self) -> Seq<NoteView> {
        if self.config.reference_target() == "/"@ {
            seq![
                NoteView::Warning(
                    "Warning: skipping chown of '/' (would alter container-wide ownership); set workspaceFolder to a specific directory"@,
                ),
            ]
        } else {
            no_notes()
        }
    }

    /// The step after one that ended in a certain way.
    pub open spec fn step_after(&self, step: UidStepView, outcome: Outcome) -> UidStepView {
        match step {
            UidStepView::CheckUser => match outcome {
                Outcome::NotRun(_) => UidStepView::Done,
                Outcome::Failed(_) => UidStepView::AddGroup,
                Outcome::Succeeded(stdout) => if self.same_ids(stdout@) {
                    UidStepView::Done
                } else {
                    UidStepView::ChangeUser
                },
            },
            UidStepView::ChangeUser => UidStepView::FindGroup,
            UidStepView::FindGroup => UidStepView::ChangeGroup(group_of(outcome, self.user@)),
            UidStepView::ChangeGroup(_) => self.owner_step(),
            UidStepView::FindOwner => UidStepView::ChangeOwner(group_of(outcome, self.user@)),
            UidStepView::ChangeOwner(_) => UidStepView::Done,
            UidStepView::AddGroup => UidStepView::AddUser,
            UidStepView::AddUser => if outcome is Succeeded {
                self.owner_step()
            } else {
                UidStepView::Done
            },
            UidStepView::Done => UidStepView::Done,
        }
    }

    /// What is said about numbers that differ.
    pub open spec fn id_notes(&self, stdout: Seq<char>) -> Seq<NoteView> {
        let uid = id_after(stdout, "uid="@);
        let gid = id_after(stdout, "gid="@);
        (if uid == Some(self.uid as nat) {
            no_notes()
        } else {
            seq![
                NoteView::Warning(
                    "Updating UID for "@ + self.user@ + " from "@ + maybe_text(uid) + " to "@
                        + decimal_text(self.uid as nat),
                ),
            ]
        }) + (if gid == Some(self.gid as nat) {
            no_notes()
        } else {
            seq![
                NoteView::Warning(
                    "Updating GID for "@ + self.user@ + " from "@ + maybe_text(gid) + " to "@
                        + decimal_text(self.gid as nat),
                ),
            ]
        })
    }

    /// What is said of the directory that was handed over.
    pub open spec fn handed_notes(&self, outcome: Outcome) -> Seq<NoteView> {
        match outcome {
            Outcome::NotRun(_) => no_notes(),
            Outcome::Failed(stderr) => if says_missing(stderr@) {
                no_notes()
            } else {
                seq![NoteView::Warning("Warning: chown failed: "@ + stderr@)]
            },
            Outcome::Succeeded(_) => seq![
                NoteView::Info(
                    "Chowned "@ + self.config.reference_target() + " to "@ + self.user@,
                ),
            ],
        }
    }

    /// What is said when a step ended in a certain way.
    pub open spec fn notes_after(&self, step: UidStepView, outcome: Outcome) -> Seq<NoteView> {
        match step {
            UidStepView::CheckUser => match outcome {
                Outcome::NotRun(_) => seq![
                    NoteView::Warning(
                        "Warning: failed to run 'docker exec id "@ + self.user@
                            + "' (is the docker daemon running?); skipping updateRemoteUserUID"@,
                    ),
                ],
                Outcome::Failed(_) => seq![
                    NoteView::Warning(
                        "Warning: user '"@ + self.user@
                            + "' not found in container; will attempt to create it"@,
                    ),
                    NoteView::Warning(
                        "Attempting to create user "@ + self.user@ + " with UID "@ + decimal_text(
                            self.uid as nat,
                        ),
                    ),
                ],
                Outcome::Succeeded(stdout) => self.id_notes(stdout@),
            },
            UidStepView::ChangeUser => match outcome {
                Outcome::NotRun(e) => seq![
                    NoteView::Warning("Warning: failed to run usermod: "@ + e@),
                ],
                Outcome::Failed(stderr) => seq![
                    NoteView::Warning(
                        "Warning: usermod failed for "@ + self.user@ + ": "@ + stderr@,
                    ),
                ],
                Outcome::Succeeded(_) => seq![NoteView::Info("Updated UID for "@ + self.user@)],
            },
            UidStepView::ChangeGroup(group) => (match outcome {
                Outcome::NotRun(e) => seq![
                    NoteView::Warning("Warning: failed to run groupmod: "@ + e@),
                ],
                Outcome::Failed(stderr) => if says_missing(stderr@) {
                    no_notes()
                } else {
                    seq![
                        NoteView::Warning(
                            "Warning: groupmod failed for "@ + group + ": "@ + stderr@,
                        ),
                    ]
                },
                Outcome::Succeeded(_) => seq![NoteView::Info("Updated GID for "@ + group)],
            }) + self.owner_notes(),
            UidStepView::ChangeOwner(_) => self.handed_notes(outcome),
            UidStepView::AddUser => match outcome {
                Outcome::NotRun(_) => no_notes(),
                Outcome::Failed(stderr) => seq![
                    NoteView::Warning("Warning: useradd failed: "@ + stderr@),
                ],
                Outcome::Succeeded(_) => seq![
                    NoteView::Info("Created user "@ + self.user@),
                ] + self.owner_notes(),
            },
            _ => no_notes(),
        }
    }

    /// Says what is about to be done; whether it is done, which it is not for a host user with the
    /// number 0.
    pub fn begin(&self, windows: bool, notes: &mut Notes) -> (go_on: bool)
        ensures
            go_on == (self.uid != 0),
            final(notes)@ == old(notes)@.push(
                begin_uid_note(self.user@, self.uid as nat, self.gid as nat, windows),
            ),
    {
        if self.uid == 0 {
            if windows {
                notes.warn(
                    "Warning: UID/GID synchronization is not supported on Windows; skipping updateRemoteUserUID".to_owned(),
                );
            } else {
                notes.warn(
                    "Warning: bondar is running as root; skipping updateRemoteUserUID (container user would map to uid 0)".to_owned(),
                );
            }
            false
        } else {
            let uid = decimal(self.uid as u64);
            let gid = decimal(self.gid as u64);
            notes.info(
                "Updating UID/GID for user ".to_owned().concat(self.user).concat(" to ").concat(
                    uid.as_str(),
                ).concat(":").concat(gid.as_str()).concat(" (updateRemoteUserUID)"),
            );
            true
        }
    }

    fn begin_owner(&self, notes: &mut Notes) -> (res: UidStep)
        ensures
            res@ == self.owner_step(),
            final(notes)@ == old(notes)@ + self.owner_notes(),
    {
        assert(notes@ + no_notes() =~= notes@);
        let directory = self.config.workspace_target();
        if same_text(directory.as_str(), "/") {
            notes.warn(
                "Warning: skipping chown of '/' (would alter container-wide ownership); set workspaceFolder to a specific directory".to_owned(),
            );
            UidStep::Done
        } else {
            UidStep::FindOwner
        }
    }

    fn after_check(&self, outcome: &Outcome, notes: &mut Notes) -> (res: UidStep)
        ensures
            res@ == self.step_after(UidStepView::CheckUser, *outcome),
            final(notes)@ == old(notes)@ + self.notes_after(UidStepView::CheckUser, *outcome),
    {
        let ghost start = notes@;
        let wanted_uid = decimal(self.uid as u64);
        match outcome {
            Outcome::NotRun(_) => {
                notes.warn(
                    "Warning: failed to run 'docker exec id ".to_owned().concat(self.user).concat(
                        "' (is the docker daemon running?); skipping updateRemoteUserUID",
                    ),
                );
                UidStep::Done
            },
            Outcome::Failed(_) => {
                notes.warn(
                    "Warning: user '".to_owned().concat(self.user).concat(
                        "' not found in container; will attempt to create it",
                    ),
                );
                notes.warn(
                    "Attempting to create user ".to_owned().concat(self.user).concat(
                        " with UID ",
                    ).concat(wanted_uid.as_str()),
                );
                assert(notes@ =~= start + self.notes_after(UidStepView::CheckUser, *outcome));
                UidStep::AddGroup
            },
            Outcome::Succeeded(stdout) => {
                let uid = parse_id_output(stdout.as_str(), "uid=");
                let gid = parse_id_output(stdout.as_str(), "gid=");
                let same_uid: bool = match uid {
                    Some(n) => n == self.uid,
                    None => false,
                };
                let same_gid: bool = match gid {
                    Some(n) => n == self.gid,
                    None => false,
                };
                if !same_uid {
                    let found = maybe(uid);
                    notes.warn(
                        "Updating UID for ".to_owned().concat(self.user).concat(" from ").concat(
                            found.as_str(),
                        ).concat(" to ").concat(wanted_uid.as_str()),
                    );
                }
                if !same_gid {
                    let found = maybe(gid);
                    let wanted_gid = decimal(self.gid as u64);
                    notes.warn(
                        "Updating GID for ".to_owned().concat(self.user).concat(" from ").concat(
                            found.as_str(),
                        ).concat(" to ").concat(wanted_gid.as_str()),
                    );
                }
                assert(notes@ =~= start + self.id_notes(stdout@));
                if same_uid && same_gid {
                    UidStep::Done
                } else {
                    UidStep::ChangeUser
                }
            },
        }
    }

    fn after_group(&self, group: &str, outcome: &Outcome, notes: &mut Notes) -> (res: UidStep)
        ensures
            res@ == self.owner_step(),
            final(notes)@ == old(notes)@ + self.notes_after(
                UidStepView::ChangeGroup(group@),
                *outcome,
            ),
    {
        let ghost start = notes@;
        match outcome {
            Outcome::NotRun(e) => {
                notes.warn(
                    "Warning: failed to run groupmod: ".to_owned().concat(e.as_str()),
                );
            },
            Outcome::Failed(stderr) => {
                if !is_missing(stderr.as_str()) {
                    notes.warn(
                        "Warning: groupmod failed for ".to_owned().concat(group).concat(
                            ": ",
                        ).concat(stderr.as_str()),
                    );
                }
            },
            Outcome::Succeeded(_) => {
                notes.info("Updated GID for ".to_owned().concat(group));
            },
        }
        let next = self.begin_owner(notes);
        assert(notes@ =~= start + self.notes_after(UidStepView::ChangeGroup(group@), *outcome));
        next
    }

    /// Says what came of handing the directory over.
    fn after_owner(&self, outcome: &Outcome, notes: &mut Notes)
        ensures
            final(notes)@ == old(notes)@ + self.handed_notes(*outcome),
    {
        assert(notes@ + no_notes() =~= notes@);
        match outcome {
            Outcome::NotRun(_) => {},
            Outcome::Failed(stderr) => {
                if !is_missing(stderr.as_str()) {
                    notes.warn("Warning: chown failed: ".to_owned().concat(stderr.as_str()));
                }
            },
            Outcome::Succeeded(_) => {
                let directory = self.config.workspace_target();
                notes.info(
                    "Chowned ".to_owned().concat(directory.as_str()).concat(" to ").concat(
                        self.user,
                    ),
                );
            },
        }
    }

    /// The next step, given how the last one ended.
    pub fn advance(&self, step: &UidStep, outcome: &Outcome, notes: &mut Notes) -> (res: UidStep)
        ensures
            res@ == self.step_after(step@, *outcome),
            final(notes)@ == old(notes)@ + self.notes_after(step@, *outcome),
    {
        assert(notes@ + no_notes() =~= notes@);
        match step {
            UidStep::CheckUser => self.after_check(outcome, notes),
            UidStep::ChangeUser => {
                match outcome {
                    Outcome::NotRun(e) => {
                        notes.warn(
                            "Warning: failed to run usermod: ".to_owned().concat(e.as_str()),
                        );
                    },
                    Outcome::Failed(stderr) => {
                        notes.warn(
                            "Warning: usermod failed for ".to_owned().concat(self.user).concat(
                                ": ",
                            ).concat(stderr.as_str()),
                        );
                    },
                    Outcome::Succeeded(_) => {
                        notes.info("Updated UID for ".to_owned().concat(self.user));
                    },
                }
                UidStep::FindGroup
            },
            UidStep::FindGroup => UidStep::ChangeGroup(resolve_primary_group(outcome, self.user)),
            UidStep::ChangeGroup(group) => self.after_group(group.as_str(), outcome, notes),
            UidStep::FindOwner => UidStep::ChangeOwner(resolve_primary_group(outcome, self.user)),
            UidStep::ChangeOwner(_) => {
                self.after_owner(outcome, notes);
                UidStep::Done
            },
            UidStep::AddGroup => UidStep::AddUser,
            UidStep::AddUser => {
                let ghost start = notes@;
                match outcome {
                    Outcome::NotRun(_) => UidStep::Done,
                    Outcome::Failed(stderr) => {
                        notes.warn("Warning: useradd failed: ".to_owned().concat(stderr.as_str()));
                        UidStep::Done
                    },
                    Outcome::Succeeded(_) => {
                        notes.info("Created user ".to_owned().concat(self.user));
                        let next = self.begin_owner(notes);
                        assert(notes@ =~= start + self.notes_after(step@, *outcome));
                        next
                    },
                }
            },
            UidStep::Done => UidStep::Done,
        }
    }

    /// The arguments of `docker` for a step.
    pub open spec fn step_args(&self, step: UidStepView) -> Seq<Seq<char>> {
        let as_root = seq!["exec"@, "--user"@, "root"@, self.container@];
        match step {
            UidStepView::CheckUser => seq!["exec"@, self.container@, "id"@, self.user@],
            UidStepView::ChangeUser => as_root + seq![
                "usermod"@,
                "-u"@,
                decimal_text(self.uid as nat),
                self.user@,
            ],
            UidStepView::FindGroup | UidStepView::FindOwner => seq![
                "exec"@,
                self.container@,
                "id"@,
                "-g"@,
                "-n"@,
                self.user@,
            ],
            UidStepView::ChangeGroup(group) => as_root + seq![
                "groupmod"@,
                "-g"@,
                decimal_text(self.gid as nat),
                group,
            ],
            UidStepView::ChangeOwner(group) => as_root + seq![
                "chown"@,
                "-R"@,
                self.user@ + ":"@ + group,
                self.config.reference_target(),
            ],
            UidStepView::AddGroup => as_root + seq![
                "groupadd"@,
                "-g"@,
                decimal_text(self.gid as nat),
                self.user@,
            ],
            UidStepView::AddUser => as_root + seq![
                "useradd"@,
                "-m"@,
                "-u"@,
                decimal_text(self.uid as nat),
                "-g"@,
                self.user@,
                self.user@,
            ],
            UidStepView::Done => Seq::empty(),
        }
    }

    pub fn args(&self, step: &UidStep) -> (res: Texts)
        ensures
            res@ == self.step_args(step@),
    {
        let mut out = Texts::new();
        if let UidStep::Done = step {
            return out;
        }
        out.arg("exec");
        match step {
            UidStep::CheckUser => {
                out.arg(self.container);
                out.arg("id");
                out.arg(self.user);
            },
            UidStep::FindGroup | UidStep::FindOwner => {
                out.arg(self.container);
                out.arg("id");
                out.arg("-g");
                out.arg("-n");
                out.arg(self.user);
            },
            _ => {
                out.arg("--user");
                out.arg("root");
                out.arg(self.container);
                self.add_root_command(step, &mut out);
            },
        }
        assert(out@ =~= self.step_args(step@));
        out
    }

    /// What is run as `root`.
    fn add_root_command(&self, step: &UidStep, out: &mut Texts)
        requires
            !(step is CheckUser || step is FindGroup || step is FindOwner || step is Done),
        ensures
            final(out)@ == old(out)@ + self.step_args(step@).skip(4),
    {
        let ghost start = out@;
        match step {
            UidStep::ChangeUser => {
                out.arg("usermod");
                out.arg("-u");
                out.push(decimal(self.uid as u64));
                out.arg(self.user);
            },
            UidStep::ChangeGroup(group) => {
                out.arg("groupmod");
                out.arg("-g");
                out.push(decimal(self.gid as u64));
                out.arg(group.as_str());
            },
            UidStep::ChangeOwner(group) => {
                out.arg("chown");
                out.arg("-R");
                out.push(self.user.to_owned().concat(":").concat(group.as_str()));
                out.push(self.config.workspace_target());
            },
            UidStep::AddGroup => {
                out.arg("groupadd");
                out.arg("-g");
                out.push(decimal(self.gid as u64));
                out.arg(self.user);
            },
            UidStep::AddUser => {
                out.arg("useradd");
                out.arg("-m");
                out.arg("-u");
                out.push(decimal(self.uid as u64));
                out.arg("-g");
                out.arg(self.user);
                out.arg(self.user);
            },
            _ => {},
        }
        assert(out@ =~= start + self.step_args(step@).skip(4));
    }
}

/// How many steps are left at most.
pub open spec fn steps_left(step: UidStepView) -> nat {
    match step {
        UidStepView::CheckUser => 6,
        UidStepView::ChangeUser => 5,
        UidStepView::FindGroup => 4,
        UidStepView::ChangeGroup(_) => 3,
        UidStepView::FindOwner => 2,
        UidStepView::ChangeOwner(_) => 1,
        UidStepView::AddGroup => 4,
        UidStepView::AddUser => 3,
        UidStepView::Done => 0,
    }
}

/// Whatever the commands come to, the steps end: each brings the end nearer.
pub proof fn law_user_steps_end(job: UidJob, step: UidStepView, outcome: Outcome)
    requires
        step !is Done,
    ensures
        steps_left(job.step_after(step, outcome)) < steps_left(step),
{
}

/// A user is created only where the container has answered that it does not know them: where the
/// question could not be put, or the user is there, nobody is created.
pub proof fn law_users_are_created_on_an_answer_only(
    job: UidJob,
    step: UidStepView,
    outcome: Outcome,
)
    ensures
        job.step_after(step, outcome) is AddGroup <==> step is CheckUser && outcome is Failed,
        job.step_after(step, outcome) is AddUser <==> step is AddGroup,
{
}

/// The root directory is never handed over.
pub proof fn law_root_directory_keeps_its_owner(job: UidJob, step: UidStepView, outcome: Outcome)
    requires
        job.config.reference_target() == "/"@,
        step !is FindOwner,
    ensures
        !(job.step_after(step, outcome) is FindOwner),
        !(job.step_after(step, outcome) is ChangeOwner),
{
}

/// The numbers of a user and of their group.
pub struct Ids {
    pub uid: nat,
    pub gid: nat,
}

/// The numbers of `user` and of their `group` after `docker` was run with `args` on `container`:
/// `usermod -u`, run as `root`, gives the user another number, and `groupmod -g` the group.
pub open spec fn ids_after(
    ids: Ids,
    container: Seq<char>,
    user: Seq<char>,
    group: Seq<char>,
    args: Seq<Seq<char>>,
) -> Ids {
    let as_root = seq!["exec"@, "--user"@, "root"@, container];
    let number = parsed_number(args[6], 4294967295);
    if args.len() != 8 || args.take(4) != as_root || number is None {
        ids
    } else if args[4] == "usermod"@ && args[5] == "-u"@ && args[7] == user {
        Ids { uid: number->0, ..ids }
    } else if args[4] == "groupmod"@ && args[5] == "-g"@ && args[7] == group {
        Ids { gid: number->0, ..ids }
    } else {
        ids
    }
}

/// A user whose numbers differ from the host's has the host's once the steps were run, whatever their
/// numbers were and whatever their group is called.
pub proof fn law_user_gets_the_numbers_of_the_host(
    job: UidJob,
    printed: String,
    changed: Outcome,
    named: Outcome,
    ids: Ids,
)
    requires
        !job.same_ids(printed@),
    ensures
        ({
            let group = group_of(named, job.user@);
            let first = job.step_after(UidStepView::CheckUser, Outcome::Succeeded(printed));
            let second = job.step_after(first, changed);
            let third = job.step_after(second, named);
            let a = ids_after(ids, job.container@, job.user@, group, job.step_args(first));
            let b = ids_after(a, job.container@, job.user@, group, job.step_args(second));
            let c = ids_after(b, job.container@, job.user@, group, job.step_args(third));
            &&& a == (Ids { uid: job.uid as nat, ..ids })
            &&& b == a
            &&& c == (Ids { uid: job.uid as nat, gid: job.gid as nat })
        }),
{
    let group = group_of(named, job.user@);
    let first = job.step_after(UidStepView::CheckUser, Outcome::Succeeded(printed));
    let second = job.step_after(first, changed);
    let third = job.step_after(second, named);
    let as_root = seq!["exec"@, "--user"@, "root"@, job.container@];
    law_decimals_read_back(job.uid as nat, 4294967295);
    law_decimals_read_back(job.gid as nat, 4294967295);
    reveal_strlit("usermod");
    reveal_strlit("groupmod");
    assert(job.step_args(first).take(4) =~= as_root);
    assert(job.step_args(third).take(4) =~= as_root);
    assert(job.step_args(second).len() == 6);
    assert(third == UidStepView::ChangeGroup(group));
    assert("usermod"@.len() == 7 && "groupmod"@.len() == 8);
    assert(job.step_args(first)[4] == "usermod"@);
    assert(job.step_args(third)[4] == "groupmod"@);
    assert(job.step_args(first)[6] == decimal_text(job.uid as nat));
    assert(job.step_args(third)[6] == decimal_text(job.gid as nat));
    assert(job.step_args(first)[7] == job.user@);
    assert(job.step_args(third)[7] == group);
}

/// The number of the user has no say in what the group is given, nor that of the group in what the
/// user is given; two numbers are told apart.
pub proof fn law_numbers_go_where_they_belong(a: UidJob, b: UidJob, group: Seq<char>)
    requires
        a.container == b.container,
        a.user == b.user,
        a.config == b.config,
    ensures
        a.step_args(UidStepView::ChangeUser) == b.step_args(UidStepView::ChangeUser) <==> a.uid
            == b.uid,
        a.step_args(UidStepView::AddUser) == b.step_args(UidStepView::AddUser) <==> a.uid == b.uid,
        a.step_args(UidStepView::ChangeGroup(group)) == b.step_args(UidStepView::ChangeGroup(group))
            <==> a.gid == b.gid,
        a.step_args(UidStepView::AddGroup) == b.step_args(UidStepView::AddGroup) <==> a.gid == b.gid,
{
    law_decimals_read_back(a.uid as nat, 4294967295);
    law_decimals_read_back(b.uid as nat, 4294967295);
    law_decimals_read_back(a.gid as nat, 4294967295);
    law_decimals_read_back(b.gid as nat, 4294967295);
    assert(a.step_args(UidStepView::ChangeUser)[6] == decimal_text(a.uid as nat));
    assert(b.step_args(UidStepView::ChangeUser)[6] == decimal_text(b.uid as nat));
    assert(a.step_args(UidStepView::AddUser)[7] == decimal_text(a.uid as nat));
    assert(b.step_args(UidStepView::AddUser)[7] == decimal_text(b.uid as nat));
    assert(a.step_args(UidStepView::ChangeGroup(group))[6] == decimal_text(a.gid as nat));
    assert(b.step_args(UidStepView::ChangeGroup(group))[6] == decimal_text(b.gid as nat));
    assert(a.step_args(UidStepView::AddGroup)[6] == decimal_text(a.gid as nat));
    assert(b.step_args(UidStepView::AddGroup)[6] == decimal_text(b.gid as nat));
}

/// A user that is created gets the numbers of the host: first a group of their own name with the
/// host's number, and then the user with the host's number in that group. What changes a user is run
/// as `root`; what asks about them is not.
pub proof fn law_user_commands(job: UidJob, group: Seq<char>)
    ensures
        ({
            let as_root = seq!["exec"@, "--user"@, "root"@, job.container@];
            let groupadd = job.step_args(UidStepView::AddGroup);
            let useradd = job.step_args(UidStepView::AddUser);
            let chown = job.step_args(UidStepView::ChangeOwner(group));
            let check = job.step_args(UidStepView::CheckUser);
            let find = job.step_args(UidStepView::FindGroup);
            &&& groupadd.take(4) == as_root && useradd.take(4) == as_root && chown.take(4) == as_root
            &&& groupadd[4] == "groupadd"@ && groupadd.last() == job.user@
            &&& pair_at(groupadd, "-g"@, groupadd[6], 5)
            &&& parsed_number(groupadd[6], 4294967295) == Some(job.gid as nat)
            &&& useradd[4] == "useradd"@ && useradd.last() == job.user@
            &&& useradd.contains("-m"@)
            &&& pair_at(useradd, "-u"@, useradd[7], 6)
            &&& parsed_number(useradd[7], 4294967295) == Some(job.uid as nat)
            &&& pair_at(useradd, "-g"@, groupadd.last(), 8)
            &&& chown[4] == "chown"@ && chown[5] == "-R"@
            &&& chown[6] == job.user@ + ":"@ + group
            &&& chown.last() == job.config.reference_target()
            &&& !has_pair(check, "--user"@, "root"@) && !has_pair(find, "--user"@, "root"@)
            &&& check[0] == "exec"@ && check[1] == job.container@ && check[2] == "id"@
            &&& check.last() == job.user@
            &&& find.take(3) == check.take(3) && find[3] == "-g"@ && find[4] == "-n"@
            &&& find.last() == job.user@
            &&& groupadd.len() == 8 && useradd.len() == 11 && chown.len() == 8
            &&& check.len() == 4 && find.len() == 6
        }),
{
    let as_root = seq!["exec"@, "--user"@, "root"@, job.container@];
    law_decimals_read_back(job.uid as nat, 4294967295);
    law_decimals_read_back(job.gid as nat, 4294967295);
    let groupadd = job.step_args(UidStepView::AddGroup);
    let useradd = job.step_args(UidStepView::AddUser);
    let chown = job.step_args(UidStepView::ChangeOwner(group));
    let check = job.step_args(UidStepView::CheckUser);
    let find = job.step_args(UidStepView::FindGroup);
    assert(groupadd.take(4) =~= as_root);
    assert(useradd.take(4) =~= as_root);
    assert(chown.take(4) =~= as_root);
    assert(useradd[5] == "-m"@);
    assert(find.take(3) =~= check.take(3));
    reveal_strlit("exec");
    reveal_strlit("--user");
    reveal_strlit("id");
    reveal_strlit("-g");
    reveal_strlit("-n");
    reveal_strlit("root");
    assert("exec"@.len() == 4 && "--user"@.len() == 6 && "id"@.len() == 2 && "-g"@.len() == 2);
}

proof fn lemma_digits_end(s: Seq<char>, i: int, end: int)
    requires
        0 <= i <= end < s.len(),
        forall|k: int| i <= k < end ==> is_digit(#[trigger] s[k]),
        !is_digit(s[end]),
    ensures
        digits_end(s, i) == end,
    decreases end - i,
{
    if i < end {
        lemma_digits_end(s, i + 1, end);
    }
}

/// What `id` prints first: the number and name of the user, and those of the group.
pub open spec fn printed_ids(
    uid: nat,
    user: Seq<char>,
    gid: nat,
    rest: Seq<char>,
) -> Seq<char> {
    "uid="@ + decimal_text(uid) + "("@ + user + ") gid="@ + decimal_text(gid) + "("@ + rest
}

/// The user has the host's numbers if and only if `id` prints them: where the steps were run once,
/// running them again changes nothing.
pub proof fn law_printed_numbers_are_read(
    job: UidJob,
    uid: nat,
    user: Seq<char>,
    gid: nat,
    rest: Seq<char>,
)
    requires
        uid <= 4294967295,
        gid <= 4294967295,
        !user.contains('='),
    ensures
        ({
            let stdout = printed_ids(uid, user, gid, rest);
            &&& id_after(stdout, "uid="@) == Some(uid)
            &&& id_after(stdout, "gid="@) == Some(gid)
            &&& job.same_ids(stdout) <==> uid == job.uid && gid == job.gid
        }),
{
    let s = printed_ids(uid, user, gid, rest);
    let u = decimal_text(uid);
    let g = decimal_text(gid);
    reveal_strlit("uid=");
    reveal_strlit("gid=");
    reveal_strlit("(");
    reveal_strlit(") gid=");
    law_decimals_read_back(uid, 4294967295);
    law_decimals_read_back(gid, 4294967295);
    let front = "uid="@ + u + "("@ + user + ") gid="@;
    let a = 4 + u.len() as int;
    let at = a + 1 + user.len() + 2;
    assert(s =~= front + g + "("@ + rest);
    assert(front.len() == at + 4);
    assert(s.subrange(0, 4) =~= "uid="@);
    assert(stands_at(s, "uid="@, 0));
    assert(s[a] == '(');
    assert forall|k: int| 4 <= k < a implies is_digit(#[trigger] s[k]) by {
        assert(s[k] == u[k - 4]);
    }
    lemma_digits_end(s, 4, a);
    assert(s.subrange(4, a) =~= u);

    assert(s.subrange(at, at + 4) =~= "gid="@);
    assert(stands_at(s, "gid="@, at));
    assert forall|i: int| 0 <= i < at implies !stands_at(s, "gid="@, i) by {
        if stands_at(s, "gid="@, i) {
            assert(s.subrange(i, i + 4)[3] == '=');
            assert(s.subrange(i, i + 4)[0] == 'g');
            assert(s[i + 3] == '=');
            assert(s[i] == 'g');
            if i == 0 {
                assert(s[0] == 'u');
            } else if i + 3 < a {
                assert(s[i + 3] == u[i - 1]);
                assert(is_digit(u[i - 1]));
            } else if i + 3 == a {
            } else if i + 3 < a + 1 + user.len() {
                assert(s[i + 3] == user[i + 3 - a - 1]);
            } else {
                assert(s[i + 3] == ") gid="@[i + 3 - a - 1 - user.len()]);
            }
        }
    }
    lemma_seek_pat(s, "gid="@, 0);
    assert(seek_pat(s, "gid="@, 0) == at);
    let b = at + 4;
    let end = b + g.len();
    assert(s[end] == '(');
    assert forall|k: int| b <= k < end implies is_digit(#[trigger] s[k]) by {
        assert(s[k] == g[k - b]);
    }
    lemma_digits_end(s, b, end);
    assert(s.subrange(b, end) =~= g);
}

// ---------------------------------------------------------------------------------------------
// The environment of the user

/// The variables in what `env` prints.
pub open spec fn env_of(v: Seq<Seq<char>>) -> Seq<(Seq<char>, Seq<char>)>
    decreases v.len(),
{
    if v.len() == 0 {
        Seq::empty()
    } else {
        match cut_once(v.last(), '=') {
            Some(p) => inserted(env_of(v.drop_last()), p.0, p.1),
            None => env_of(v.drop_last()),
        }
    }
}

pub open spec fn opt_env(o: Option<EnvMap>) -> Option<Seq<(Seq<char>, Seq<char>)>> {
    match o {
        Some(m) => Some(m@),
        None => None,
    }
}

/// The variables of an answer, where it holds any.
pub open spec fn answered_env(stdout: Seq<char>) -> Option<Seq<(Seq<char>, Seq<char>)>> {
    let env = env_of(lines(stdout));
    if env.len() == 0 {
        None
    } else {
        Some(env)
    }
}

pub fn parse_env_output(stdout: &str) -> (res: Option<EnvMap>)
    ensures
        opt_env(res) == answered_env(stdout@),
        res matches Some(m) ==> m.wf(),
{
    let all = split_lines(stdout);
    let mut env = EnvMap::new();
    let mut i: usize = 0;
    assert(all@.take(0) =~= Seq::<Seq<char>>::empty());
    while i < all.len()
        invariant
            i <= all@.len(),
            env.wf(),
            env@ == env_of(all@.take(i as int)),
        decreases all@.len() - i,
    {
        assert(all@.take(i + 1).drop_last() =~= all@.take(i as int));
        if let Some((k, v)) = split_once(all.get(i), '=') {
            env.insert(k.as_str(), v.as_str());
        }
        i = i + 1;
    }
    assert(all@.take(i as int) =~= all@);
    if env.len() == 0 {
        None
    } else {
        Some(env)
    }
}

/// The shell and its arguments that show the environment for a kind of probe.
pub open spec fn probe_command(probe: Seq<char>) -> Seq<Seq<char>> {
    if probe == "interactiveShell"@ {
        seq!["bash"@, "-i"@, "-c"@, "env"@]
    } else if probe == "loginShell"@ {
        seq!["bash"@, "-l"@, "-c"@, "env"@]
    } else if probe == "loginInteractiveShell"@ {
        seq!["bash"@, "-l"@, "-i"@, "-c"@, "env"@]
    } else {
        plain_probe()
    }
}

/// The probe that every container has a shell for.
pub open spec fn plain_probe() -> Seq<Seq<char>> {
    seq!["sh"@, "-c"@, "env"@]
}

/// `docker exec`, as a certain user where one is given.
pub open spec fn exec_as(container: Seq<char>, user: Option<Seq<char>>) -> Seq<Seq<char>> {
    seq!["exec"@] + (match user {
        Some(u) => seq!["--user"@, u],
        None => Seq::empty(),
    }) + seq![container]
}

fn exec_start(container: &str, user: Option<&str>) -> (res: Texts)
    ensures
        res@ == exec_as(container@, opt_str(user)),
{
    let mut out = Texts::new();
    out.arg("exec");
    if let Some(u) = user {
        out.arg("--user");
        out.arg(u);
    }
    out.arg(container);
    assert(out@ =~= exec_as(container@, opt_str(user)));
    out
}

/// The arguments of `docker` for a probe of the environment.
pub open spec fn probe_words(container: Seq<char>, user: Option<Seq<char>>, probe: Seq<char>) -> Seq<
    Seq<char>,
> {
    exec_as(container, user) + probe_command(probe)
}

pub fn probe_args(container: &str, user: Option<&str>, probe: &str) -> (res: Texts)
    ensures
        res@ == probe_words(container@, opt_str(user), probe@),
{
    let mut out = exec_start(container, user);
    let ghost start = out@;
    if same_text(probe, "interactiveShell") {
        out.arg("bash");
        out.arg("-i");
    } else if same_text(probe, "loginShell") {
        out.arg("bash");
        out.arg("-l");
    } else if same_text(probe, "loginInteractiveShell") {
        out.arg("bash");
        out.arg("-l");
        out.arg("-i");
    } else {
        out.arg("sh");
    }
    out.arg("-c");
    out.arg("env");
    assert(out@ =~= start + probe_command(probe@));
    out
}

/// The arguments of `docker` for the probe that is made where the first one failed.
pub fn fallback_probe_args(container: &str, user: Option<&str>) -> (res: Texts)
    ensures
        res@ == exec_as(container@, opt_str(user)) + plain_probe(),
{
    let mut out = exec_start(container, user);
    let ghost start = out@;
    out.arg("sh");
    out.arg("-c");
    out.arg("env");
    assert(out@ =~= start + plain_probe());
    out
}

/// What follows from the first probe: the environment, or a second probe.
#[derive(Debug)]
pub enum Probed {
    Env(Option<EnvMap>),
    TryPlain,
}

/// What the first probe shows. Where the shell that it asks for fails, a plain one is tried; where
/// the probe could not be made at all, there is nothing to be had.
pub fn probe_user_env(outcome: &Outcome) -> (res: Probed)
    ensures
        tries_plain(*outcome) <==> res is TryPlain,
        res matches Probed::Env(env) ==> opt_env(env) == shown_env(*outcome) && (env matches Some(m)
            ==> m.wf()),
{
    match outcome {
        Outcome::NotRun(_) => Probed::Env(None),
        Outcome::Failed(_) => Probed::TryPlain,
        Outcome::Succeeded(stdout) => Probed::Env(parse_env_output(stdout.as_str())),
    }
}

/// The variables that a probe shows.
pub open spec fn shown_env(outcome: Outcome) -> Option<Seq<(Seq<char>, Seq<char>)>> {
    match outcome {
        Outcome::Succeeded(stdout) => answered_env(stdout@),
        _ => None,
    }
}

/// What the plain probe shows.
pub fn probe_plain_env(outcome: &Outcome) -> (res: Option<EnvMap>)
    ensures
        opt_env(res) == shown_env(*outcome),
        res matches Some(m) ==> m.wf(),
{
    match outcome {
        Outcome::Succeeded(stdout) => parse_env_output(stdout.as_str()),
        _ => None,
    }
}

/// Reading a printed variable gives it back: after a line `key=value` whose key holds no `=`, the
/// environment maps the key to the value, whatever was printed before.
pub proof fn law_printed_variables_are_read(before: Seq<Seq<char>>, key: Seq<char>, value: Seq<char>)
    requires
        !key.contains('='),
    ensures
        lookup(env_of(before.push(key + seq!['='] + value)), key) == Some(value),
{
    let line = key + seq!['='] + value;
    let all = before.push(line);
    assert(all.drop_last() =~= before);
    assert(all.last() == line);
    lemma_seek(line, '=', 0);
    let at = seek(line, '=', 0);
    assert(line[key.len() as int] == '=');
    assert(at == key.len()) by {
        if at < key.len() {
            assert(key[at] == '=');
        }
    }
    assert(line.take(key.len() as int) =~= key);
    assert(line.skip(at + 1) =~= value);
    lemma_inserted_lookup(env_of(before), key, value, key);
}

// ---------------------------------------------------------------------------------------------
// What is asked and what is answered

/// The environment is probed in the container by `env`, in a `bash` that is interactive, a login shell,
/// or both, as the probe is called, and as the user where one is given; any other probe is made by a
/// plain shell.
pub proof fn law_probe_words(container: Seq<char>, user: Seq<char>, other: Seq<char>)
    requires
        other != "interactiveShell"@ && other != "loginShell"@ && other != "loginInteractiveShell"@,
    ensures
        probe_words(container, None, "interactiveShell"@) == seq![
            "exec"@,
            container,
            "bash"@,
            "-i"@,
            "-c"@,
            "env"@,
        ],
        probe_words(container, None, "loginShell"@) == seq![
            "exec"@,
            container,
            "bash"@,
            "-l"@,
            "-c"@,
            "env"@,
        ],
        probe_words(container, Some(user), "loginInteractiveShell"@) == seq![
            "exec"@,
            "--user"@,
            user,
            container,
            "bash"@,
            "-l"@,
            "-i"@,
            "-c"@,
            "env"@,
        ],
        probe_words(container, Some(user), other) == seq![
            "exec"@,
            "--user"@,
            user,
            container,
            "sh"@,
            "-c"@,
            "env"@,
        ],
        probe_words(container, None, other) == exec_as(container, None) + plain_probe(),
{
    reveal_strlit("interactiveShell");
    reveal_strlit("loginShell");
    reveal_strlit("loginInteractiveShell");
    assert("interactiveShell"@.len() == 16 && "loginShell"@.len() == 10);
    assert("loginInteractiveShell"@.len() == 21);
    assert(probe_words(container, None, "interactiveShell"@) =~= seq![
        "exec"@,
        container,
        "bash"@,
        "-i"@,
        "-c"@,
        "env"@,
    ]);
    assert(probe_words(container, None, "loginShell"@) =~= seq![
        "exec"@,
        container,
        "bash"@,
        "-l"@,
        "-c"@,
        "env"@,
    ]);
    assert(probe_words(container, Some(user), "loginInteractiveShell"@) =~= seq![
        "exec"@,
        "--user"@,
        user,
        container,
        "bash"@,
        "-l"@,
        "-i"@,
        "-c"@,
        "env"@,
    ]);
    assert(probe_words(container, Some(user), other) =~= seq![
        "exec"@,
        "--user"@,
        user,
        container,
        "sh"@,
        "-c"@,
        "env"@,
    ]);
}

/// The user whose numbers are changed is the remote user, or else the container's; nobody's are where the
/// configuration forbids it, and never those of `root`.
pub proof fn law_uid_user(c: DevContainerConfig)
    ensures
        c.update_remote_user_uid == Some(false) ==> uid_user(c) is None,
        uid_user(c) != Some("root"@),
        c.update_remote_user_uid != Some(false) ==> {
            &&& c.remote_user matches Some(u) ==> u@ != "root"@ ==> uid_user(c) == Some(u@)
            &&& c.remote_user is None && c.container_user is Some && c.container_user->0@ != "root"@
                ==> uid_user(c) == Some(c.container_user->0@)
            &&& c.remote_user is None && c.container_user is None ==> uid_user(c) is None
        },
{
}

/// A number is read as it is printed, with a line feed behind it, and a group by its name; where nothing
/// is to be read the number is 1000 and the group has the name of the user.
pub proof fn law_printed_answers(n: nat, group: Seq<char>, user: Seq<char>, printed: String, failed: String)
    requires
        n <= 4294967295,
        group.len() > 0 && !is_white_space(group[0]) && !is_white_space(group.last()),
        printed@ == group + seq!['\n'],
    ensures
        host_id_of(decimal_text(n) + seq!['\n']) == n,
        host_id_of(Seq::empty()) == 1000,
        group_of(Outcome::Succeeded(printed), user) == group,
        group_of(Outcome::Failed(failed), user) == user,
        group_of(Outcome::NotRun(failed), user) == user,
{
    let none = Seq::<char>::empty();
    let end = seq!['\n'];
    assert(all_white(end));
    law_decimals_read_back(n, 4294967295);
    let d = decimal_text(n);
    assert(is_digit(d[0]) && is_digit(d.last()));
    law_trimmed(none, d, end);
    assert(none + d + end =~= d + end);
    law_trimmed(none, none, none);
    assert(none + none + none =~= none);
    law_trimmed(none, group, end);
    assert(none + group + end =~= group + end);
}

/// A figure in kilobytes is read under its label, and counts as so many bytes.
pub proof fn law_figures(n: nat, label: Seq<char>, unit: Seq<char>)
    requires
        n <= 18014398509481983,
        label.len() > 0,
        forall|k: int| 0 <= k < label.len() ==> !is_white_space(#[trigger] label[k]),
    ensures
        labelled_figure(label + seq![' '] + (seq![' '] + (decimal_text(n) + seq![' '] + unit)), label)
            == Some(n * 1024),
{
    let d = decimal_text(n);
    law_decimals_read_back(n, 18014398509481983);
    assert forall|k: int| 0 <= k < d.len() implies !is_white_space(#[trigger] d[k]) by {
        assert(is_digit(d[k]));
    }
    let rest = d + seq![' '] + unit;
    law_words(d, unit, ' ');
    law_words(d, rest, ' ');
    law_words(label, seq![' '] + rest, ' ');
    let line = label + seq![' '] + (seq![' '] + rest);
    assert(line.subrange(0, label.len() as int) =~= label);
    let parts = words_from(line, 0);
    assert(parts == seq![label] + (seq![d] + words_from(unit, 0)));
    assert(parts[1] == d);
}

/// The memory is what is available where the host reports it, and all there is otherwise; of several
/// figures the last one counts.
pub proof fn law_memory(before: Seq<Seq<char>>, line: Seq<char>, content: Seq<char>)
    ensures
        labelled_figure(line, "MemAvailable:"@) is Some ==> figure(
            before.push(line),
            "MemAvailable:"@,
        ) == labelled_figure(line, "MemAvailable:"@),
        labelled_figure(line, "MemAvailable:"@) is None ==> figure(
            before.push(line),
            "MemAvailable:"@,
        ) == figure(before, "MemAvailable:"@),
        figure(lines(content), "MemAvailable:"@) is Some ==> memory_of(content) == figure(
            lines(content),
            "MemAvailable:"@,
        ),
        figure(lines(content), "MemAvailable:"@) is None ==> memory_of(content) == figure(
            lines(content),
            "MemTotal:"@,
        ),
{
    assert(before.push(line).drop_last() =~= before);
}

/// The free space is the fourth figure of the first line under the heading, in kilobytes.
pub proof fn law_free_space(
    heading: Seq<char>,
    device: Seq<char>,
    total: nat,
    used: nat,
    free: nat,
    rest: Seq<char>,
)
    requires
        device.len() > 0,
        forall|k: int| 0 <= k < device.len() ==> !is_white_space(#[trigger] device[k]),
        free <= 18014398509481983,
    ensures
        ({
            let space = seq![' '];
            let line = device + space + (decimal_text(total) + space + (decimal_text(used) + space
                + (decimal_text(free) + space + rest)));
            free_space(seq![heading, line], 1) == Some(free * 1024)
        }),
{
    let space = seq![' '];
    let a = decimal_text(total);
    let b = decimal_text(used);
    let d = decimal_text(free);
    law_decimals_read_back(total, total);
    law_decimals_read_back(used, used);
    law_decimals_read_back(free, 18014398509481983);
    lemma_digits_are_no_space(a);
    lemma_digits_are_no_space(b);
    lemma_digits_are_no_space(d);
    let r3 = d + space + rest;
    let r2 = b + space + r3;
    let r1 = a + space + r2;
    law_words(d, rest, ' ');
    law_words(b, r3, ' ');
    law_words(a, r2, ' ');
    law_words(device, r1, ' ');
    let line = device + space + r1;
    let parts = words_from(line, 0);
    assert(parts == seq![device] + (seq![a] + (seq![b] + (seq![d] + words_from(rest, 0)))));
    assert(parts[3] == d);
    assert(parts.len() >= 4);
}

proof fn lemma_digits_are_no_space(s: Seq<char>)
    requires
        all_digits(s),
    ensures
        forall|k: int| 0 <= k < s.len() ==> !is_white_space(#[trigger] s[k]),
{
    assert forall|k: int| 0 <= k < s.len() implies !is_white_space(#[trigger] s[k]) by {
        assert(is_digit(s[k]));
    }
}

/// Nothing is said of processors if and only if none are asked for, or at least one and no more than
/// there are; of a size if and only if none is asked for, or one that can be read and that there is, as
/// far as is known.
pub proof fn law_met_requirements(
    req: JsonView,
    available: nat,
    name: Seq<char>,
    j: Option<JsonView>,
    required: Option<nat>,
    there: Option<nat>,
    present: bool,
)
    ensures
        cpus_notes(req, available).len() == 0 <==> (field(req, "cpus"@) matches Some(c) ==> (
        unsigned(c) matches Some(n) && 1 <= n <= available)),
        size_notes(name, j, required, there).len() == 0 <==> (j matches Some(v) ==> v is String && (
        required matches Some(r) && (there matches Some(a) ==> r <= a))),
        gpu_notes(Some(JsonView::Bool(true)), present, required).len() == 0 <==> present,
        gpu_notes(Some(JsonView::Bool(false)), present, required).len() == 0,
        gpu_notes(None, present, required).len() == 0,
{
}

/// A host about which nothing is said meets every requirement, and what is said is said of processors,
/// memory, storage and the graphics unit, each by itself.
pub proof fn law_requirements_one_by_one(req: JsonView, facts: HostFacts, sizes: RequiredSizes)
    ensures
        ({
            let memory = field(req, "memory"@);
            let storage = field(req, "storage"@);
            let sound = (memory matches Some(m) ==> m is String) && (storage matches Some(s)
                ==> s is String);
            sound ==> requirement_notes(req, facts, sizes) == cpus_notes(req, facts.cpus as nat)
                + size_notes("memory"@, memory, opt_nat(sizes.memory), opt_nat(facts.memory))
                + size_notes("storage"@, storage, opt_nat(sizes.storage), opt_nat(facts.storage))
                + gpu_notes(field(req, "gpu"@), facts.gpu, opt_nat(sizes.gpu_memory))
        }),
{
    let memory = field(req, "memory"@);
    let storage = field(req, "storage"@);
    let a = cpus_notes(req, facts.cpus as nat);
    let b = size_notes("memory"@, memory, opt_nat(sizes.memory), opt_nat(facts.memory));
    let c = size_notes("storage"@, storage, opt_nat(sizes.storage), opt_nat(facts.storage));
    let d = gpu_notes(field(req, "gpu"@), facts.gpu, opt_nat(sizes.gpu_memory));
    assert(a + b + (c + d) =~= a + b + c + d);
}

/// A whole number of units is written as that number with one digit behind the point, in the largest
/// unit that fits.
pub proof fn law_whole_units(n: nat)
    requires
        1 <= n < 1024,
    ensures
        bytes_text(n * 1024) == decimal_text(n) + "."@ + decimal_text(0) + "kb"@,
        bytes_text(n * 1048576) == decimal_text(n) + "."@ + decimal_text(0) + "mb"@,
        bytes_text(n * 1073741824) == decimal_text(n) + "."@ + decimal_text(0) + "gb"@,
        bytes_text(n * 1099511627776) == decimal_text(n) + "."@ + decimal_text(0) + "tb"@,
{
    lemma_whole(n, 1024);
    lemma_whole(n, 1048576);
    lemma_whole(n, 1073741824);
    lemma_whole(n, 1099511627776);
}

proof fn lemma_whole(n: nat, unit: nat)
    requires
        1 <= n < 1024,
        1024 <= unit <= 1099511627776,
    ensures
        n * unit < 9007199254740992,
        n * unit >= unit,
        n * unit < 1024 * unit,
        tenths_text(nearest(10 * significant(n * unit), unit)) == decimal_text(n) + "."@
            + decimal_text(0),
{
    assert(unit <= n * unit < 1024 * unit) by (nonlinear_arith)
        requires
            1 <= n < 1024,
            unit > 0,
    ;
    let m = n * unit;
    assert(grain(m) == 1);
    assert(m / 1 == m && m % 1 == 0);
    assert(nearest(m, 1) == m);
    assert(significant(m) == m);
    assert(10 * m == (10 * n) * unit) by (nonlinear_arith)
        requires
            m == n * unit,
    ;
    assert((10 * m) / unit == 10 * n && (10 * m) % unit == 0) by (nonlinear_arith)
        requires
            10 * m == (10 * n) * unit,
            unit > 0,
    ;
    assert(nearest(10 * m, unit) == 10 * n);
}

/// A size is a number of bytes, or a number in front of a unit, in whatever case.
pub proof fn law_size_texts(n: nat)
    requires
        n <= 18446744073709551615,
    ensures
        size_of_text(decimal_text(n)) == Some(SizeView::Bytes(n)),
        size_of_text(decimal_text(n) + "kb"@) == Some(SizeView::Scaled(decimal_text(n), 1024)),
        size_of_text(decimal_text(n) + "mb"@) == Some(SizeView::Scaled(decimal_text(n), 1048576)),
        size_of_text(decimal_text(n) + "gb"@) == Some(
            SizeView::Scaled(decimal_text(n), 1073741824),
        ),
        size_of_text(decimal_text(n) + "GB"@) == Some(
            SizeView::Scaled(decimal_text(n), 1073741824),
        ),
        size_of_text(decimal_text(n) + "tb"@) == Some(
            SizeView::Scaled(decimal_text(n), 1099511627776),
        ),
{
    reveal_strlit("kb");
    reveal_strlit("mb");
    reveal_strlit("gb");
    reveal_strlit("GB");
    reveal_strlit("tb");
    let none = Seq::<char>::empty();
    let d = decimal_text(n);
    law_decimals_read_back(n, 18446744073709551615);
    lemma_unit(d, "kb"@, "kb"@);
    lemma_unit(d, "mb"@, "mb"@);
    lemma_unit(d, "gb"@, "gb"@);
    lemma_unit(d, "GB"@, "gb"@);
    lemma_unit(d, "tb"@, "tb"@);
    assert("tb"@[0] == 't' && "gb"@[0] == 'g' && "mb"@[0] == 'm' && "kb"@[0] == 'k');
    lemma_ends_in(d, "kb"@);
    lemma_ends_in(d, "mb"@);
    lemma_ends_in(d, "gb"@);
    lemma_ends_in(d, "tb"@);
    assert(is_digit(d[0]) && is_digit(d.last()));
    law_trimmed(none, d, none);
    assert(none + d + none =~= d);
    assert(lowered(d) =~= d) by {
        assert forall|i: int| 0 <= i < d.len() implies lowered(d)[i] == d[i] by {
            assert(is_digit(d[i]));
        }
    }
    lemma_no_unit(d, "kb"@);
    lemma_no_unit(d, "mb"@);
    lemma_no_unit(d, "gb"@);
    lemma_no_unit(d, "tb"@);
}

proof fn lemma_unit(d: Seq<char>, unit: Seq<char>, low: Seq<char>)
    requires
        d.len() > 0,
        all_digits(d),
        unit.len() == 2,
        low.len() == 2,
        !is_white_space(unit[1]),
        lower_char(unit[0]) == low[0],
        lower_char(unit[1]) == low[1],
    ensures
        lowered(trimmed(d + unit)) == d + low,
        before_unit(d + low) == d,
{
    let none = Seq::<char>::empty();
    assert(is_digit(d[0]) && is_digit(d.last()));
    let s = d + unit;
    law_trimmed(none, s, none);
    assert(none + s + none =~= s);
    assert(lowered(s) =~= d + low) by {
        assert forall|i: int| 0 <= i < s.len() implies lowered(s)[i] == (d + low)[i] by {
            if i < d.len() {
                assert(is_digit(d[i]));
            }
        }
    }
    assert((d + low).take((d + low).len() - 2) =~= d);
    law_trimmed(none, d, none);
    assert(none + d + none =~= d);
}

proof fn lemma_ends_in(d: Seq<char>, unit: Seq<char>)
    requires
        unit.len() == 2,
    ensures
        finishes_with(d + unit, unit),
        forall|other: Seq<char>|
            other.len() == 2 && other[0] != unit[0] ==> !#[trigger] finishes_with(d + unit, other),
{
    let s = d + unit;
    assert(s.subrange(s.len() - 2, s.len() as int) =~= unit);
    assert forall|other: Seq<char>| other.len() == 2 && other[0] != unit[0] implies !#[trigger] finishes_with(
        s,
        other,
    ) by {
        assert(s.subrange(s.len() - 2, s.len() as int)[0] == unit[0]);
    }
}

proof fn lemma_no_unit(d: Seq<char>, unit: Seq<char>)
    requires
        all_digits(d),
        unit.len() == 2,
        !is_digit(unit[1]),
    ensures
        !finishes_with(d, unit),
{
    if finishes_with(d, unit) {
        assert(d.subrange(d.len() - 2, d.len() as int)[1] == d[d.len() - 1]);
        assert(is_digit(d[d.len() - 1]));
    }
}

/// A step that fails is warned about and one that goes through is reported, each by a line of its own; a
/// group that is not there is passed over in silence.
pub proof fn law_step_notes(
    job: UidJob,
    group: Seq<char>,
    outcome: Outcome,
    printed: String,
    uid: nat,
    gid: nat,
    windows: bool,
)
    requires
        outcome is NotRun || outcome is Failed || outcome is Succeeded,
    ensures
        ({
            let changed = job.notes_after(UidStepView::ChangeUser, outcome);
            let added = job.notes_after(UidStepView::AddUser, outcome);
            let handed = job.notes_after(UidStepView::ChangeOwner(group), outcome);
            let same_uid = id_after(printed@, "uid="@) == Some(job.uid as nat);
            let same_gid = id_after(printed@, "gid="@) == Some(job.gid as nat);
            &&& changed.len() == 1 && (changed[0] is Info <==> outcome is Succeeded)
            &&& outcome is Succeeded ==> added.len() >= 1 && added[0] == NoteView::Info(
                "Created user "@ + job.user@,
            )
            &&& outcome is Failed ==> added.len() == 1 && added[0] is Warning
            &&& outcome is Succeeded ==> handed == seq![
                NoteView::Info("Chowned "@ + job.config.reference_target() + " to "@ + job.user@),
            ]
            &&& (outcome matches Outcome::Failed(stderr) && says_missing(stderr@)) ==> handed.len() == 0
            &&& job.notes_after(UidStepView::CheckUser, Outcome::Succeeded(printed)).len() == (
            if same_uid {
                0int
            } else {
                1int
            }) + (if same_gid {
                0int
            } else {
                1int
            })
            &&& begin_uid_note(job.user@, uid, gid, windows) is Warning <==> uid == 0
        }),
{
}

/// A quotient is rounded to the nearest number, and to the even one of two that are as near.
pub proof fn law_rounding(n: nat, d: nat)
    requires
        d > 0,
    ensures
        2 * n <= (2 * nearest(n, d) + 1) * d,
        (2 * nearest(n, d) - 1) * d <= 2 * n,
        2 * n == (2 * nearest(n, d) + 1) * d ==> nearest(n, d) % 2 == 0,
        2 * n == (2 * nearest(n, d) - 1) * d ==> nearest(n, d) % 2 == 0,
        n < 9007199254740992 ==> significant(n) == n,
{
    let q = (n / d) as int;
    let r = (n % d) as int;
    let e = d as int;
    vstd::arithmetic::div_mod::lemma_fundamental_div_mod(n as int, e);
    assert(e * q == q * e) by (nonlinear_arith);
    assert((2 * q + 1) * e == 2 * (q * e) + e) by (nonlinear_arith);
    assert((2 * q - 1) * e == 2 * (q * e) - e) by (nonlinear_arith);
    assert((2 * (q + 1) + 1) * e == 2 * (q * e) + 3 * e) by (nonlinear_arith);
    assert((2 * (q + 1) - 1) * e == 2 * (q * e) + e) by (nonlinear_arith);
    if n < 9007199254740992 {
        assert(grain(n) == 1);
    }
}

/// The variables of an answer count where it holds any.
pub proof fn law_answered_variables(stdout: Seq<char>)
    ensures
        answered_env(stdout) is None <==> env_of(lines(stdout)).len() == 0,
        answered_env(stdout) matches Some(env) ==> env == env_of(lines(stdout)),
{
}

/// Whether a plain shell is asked after a probe.
pub open spec fn tries_plain(outcome: Outcome) -> bool {
    outcome is Failed
}

/// A probe shows the variables that its answer holds, and none where it failed or was not made; a plain
/// shell is asked if and only if the probe failed.
pub proof fn law_shown_variables(stdout: String, outcome: Outcome)
    ensures
        outcome == Outcome::Succeeded(stdout) ==> shown_env(outcome) == answered_env(stdout@)
            && !tries_plain(outcome),
        outcome is NotRun ==> shown_env(outcome) is None && !tries_plain(outcome),
        outcome is Failed ==> shown_env(outcome) is None && tries_plain(outcome),
{
}

/// What is said of a required GPU: that there is none, that its number of cores is no number, and that
/// its memory is no size, each if and only if it is so. The root directory is never handed over, and
/// that is told.
pub proof fn law_gpu_details(
    job: UidJob,
    gpu: JsonView,
    present: bool,
    memory: Option<nat>,
    cores: nat,
    text: Seq<char>,
)
    ensures
        field(gpu, "cores"@) is None && field(gpu, "memory"@) is None ==> (gpu_object_notes(
            gpu,
            present,
            memory,
        ).len() == 0 <==> present),
        field(gpu, "memory"@) is None && field(gpu, "cores"@) is Some ==> (gpu_object_notes(
            gpu,
            true,
            memory,
        ).len() == 0 <==> unsigned(field(gpu, "cores"@)->0) is Some),
        field(gpu, "cores"@) is None && field(gpu, "memory"@) == Some(JsonView::String(text)) ==> (
        gpu_object_notes(gpu, true, memory).len() == 0 <==> memory is Some),
        job.owner_notes().len() > 0 <==> job.config.reference_target() == "/"@,
{
}

} // verus!
