//! Port specifications: what is published, what is rejected, and what is said about a port.

use vstd::prelude::*;
use vstd::string::*;

use crate::config::{AppPortValue, DevContainerConfig, ForwardPort, PortValue};
use crate::json::{field, group_json, members, opt_json, Json, JsonView};
use crate::maps::{lemma_key_index, lookup};
use crate::numbers::{
    decimal, decimal_text, digits_value, law_decimals_read_back, parse_number, parsed_number,
};
use crate::text::{
    chars_of, cut_once, ends_with, finishes_with, has_char, is_digit, is_white_space, law_pieces,
    law_trimmed, lemma_seek, lemma_seek_is, lemma_seek_none, opt_text, pieces, pieces_from,
    same_text, seek, seek_char, split, split_once, starts_with, strip_suffix, text_of, trim,
    trimmed, without_suffix,
};
use crate::texts::Texts;

verus! {

pub open spec fn port_text(p: PortValue) -> Seq<char> {
    match p {
        PortValue::Number(n) => decimal_text(n as nat),
        PortValue::Text(s) => s@,
    }
}

pub fn port_value_to_string(p: &PortValue) -> (res: String)
    ensures
        res@ == port_text(*p),
{
    match p {
        PortValue::Number(n) => decimal(*n as u64),
        PortValue::Text(s) => s.clone(),
    }
}

pub open spec fn forward_text(p: ForwardPort) -> Seq<char> {
    match p {
        ForwardPort::Number(n) => decimal_text(n as nat),
        ForwardPort::Text(s) => s@,
    }
}

pub fn forward_port_to_string(p: &ForwardPort) -> (res: String)
    ensures
        res@ == forward_text(*p),
{
    match p {
        ForwardPort::Number(n) => decimal(*n as u64),
        ForwardPort::Text(s) => s.clone(),
    }
}

pub open spec fn app_ports(p: Option<AppPortValue>) -> Seq<Seq<char>> {
    match p {
        None => Seq::empty(),
        Some(AppPortValue::Single(p)) => seq![port_text(p)],
        Some(AppPortValue::Multiple(v)) => Seq::new(v@.len(), |i: int| port_text(v@[i])),
    }
}

pub fn app_port_texts(p: &Option<AppPortValue>) -> (res: Texts)
    ensures
        res@ == app_ports(*p),
{
    let mut out = Texts::new();
    match p {
        None => {},
        Some(AppPortValue::Single(port)) => {
            out.push(port_value_to_string(port));
            assert(out@ =~= app_ports(*p));
        },
        Some(AppPortValue::Multiple(v)) => {
            let mut i: usize = 0;
            while i < v.len()
                invariant
                    *p == Some(AppPortValue::Multiple(*v)),
                    i <= v@.len(),
                    out@ == app_ports(*p).take(i as int),
                decreases v@.len() - i,
            {
                out.push(port_value_to_string(&v[i]));
                assert(app_ports(*p).take(i + 1) =~= app_ports(*p).take(i as int).push(
                    app_ports(*p)[i as int],
                ));
                i = i + 1;
            }
            assert(app_ports(*p).take(i as int) =~= app_ports(*p));
        },
    }
    out
}

pub open spec fn forward_texts(v: Seq<ForwardPort>) -> Seq<Seq<char>> {
    Seq::new(v.len(), |i: int| forward_text(v[i]))
}

pub fn forward_port_texts(v: &Vec<ForwardPort>) -> (res: Texts)
    ensures
        res@ == forward_texts(v@),
{
    let mut out = Texts::new();
    let mut i: usize = 0;
    while i < v.len()
        invariant
            i <= v@.len(),
            out@ == forward_texts(v@).take(i as int),
        decreases v@.len() - i,
    {
        out.push(forward_port_to_string(&v[i]));
        assert(forward_texts(v@).take(i + 1) =~= forward_texts(v@).take(i as int).push(
            forward_texts(v@)[i as int],
        ));
        i = i + 1;
    }
    assert(forward_texts(v@).take(i as int) =~= forward_texts(v@));
    out
}

// ---------------------------------------------------------------------------------------------
// Numbers, ranges and addresses

/// Whether the text is a number from 0 to `max`.
pub open spec fn numeric(s: Seq<char>, max: nat) -> bool {
    parsed_number(s, max) is Some
}

/// A port number, or two of them with a dash in between.
pub open spec fn port_or_range(s: Seq<char>) -> bool {
    numeric(s, 65535) || (cut_once(s, '-') matches Some(p) && numeric(p.0, 65535) && numeric(
        p.1,
        65535,
    ))
}

pub fn is_port_or_range(s: &str) -> (res: bool)
    ensures
        res == port_or_range(s@),
{
    if parse_number(s, 65535).is_some() {
        return true;
    }
    match split_once(s, '-') {
        Some((a, b)) => parse_number(a.as_str(), 65535).is_some() && parse_number(
            b.as_str(),
            65535,
        ).is_some(),
        None => false,
    }
}

/// A port or a range that a container can have: no number in it is 0.
pub open spec fn target_port(s: Seq<char>) -> bool {
    match parsed_number(s, 65535) {
        Some(n) => n != 0,
        None => cut_once(s, '-') matches Some(p) && parsed_number(p.0, 65535) matches Some(a)
            && parsed_number(p.1, 65535) matches Some(b) && a != 0 && b != 0,
    }
}

fn is_target_port(s: &str) -> (res: bool)
    ensures
        res == target_port(s@),
{
    match parse_number(s, 65535) {
        Some(n) => n != 0,
        None => match split_once(s, '-') {
            Some((a, b)) => match (
                parse_number(a.as_str(), 65535),
                parse_number(b.as_str(), 65535),
            ) {
                (Some(a), Some(b)) => a != 0 && b != 0,
                _ => false,
            },
            None => false,
        },
    }
}

/// Four numbers from 0 to 255, separated by dots.
pub open spec fn ipv4(s: Seq<char>) -> bool {
    let octets = pieces(s, '.');
    octets.len() == 4 && forall|i: int| 0 <= i < 4 ==> numeric(#[trigger] octets[i], 255)
}

pub fn is_ipv4(s: &str) -> (res: bool)
    ensures
        res == ipv4(s@),
{
    let octets = split(s, '.');
    if octets.len() != 4 {
        return false;
    }
    let mut i: usize = 0;
    while i < 4
        invariant
            octets@ == pieces(s@, '.'),
            octets@.len() == 4,
            i <= 4,
            forall|k: int| 0 <= k < i ==> numeric(#[trigger] octets@[k], 255),
        decreases 4 - i,
    {
        if parse_number(octets.get(i), 255).is_none() {
            assert(!numeric(octets@[i as int], 255));
            return false;
        }
        i = i + 1;
    }
    true
}

// ---------------------------------------------------------------------------------------------
// Publishing

/// What `docker run -p` gets for a specification without a bracketed address and without a
/// protocol; nothing for one that cannot be published. The port on the host may be 0, which stands
/// for any free port, the one in the container may not.
pub open spec fn published_plain(s: Seq<char>) -> Option<Seq<char>> {
    let p = pieces(s, ':');
    if s.len() == 0 {
        None
    } else if !s.contains(':') {
        if target_port(s) {
            Some("0.0.0.0:"@ + s + ":"@ + s)
        } else {
            None
        }
    } else if p.len() == 2 {
        if !target_port(p[1]) {
            None
        } else if ipv4(p[0]) {
            Some(s + ":"@ + p[1])
        } else if port_or_range(p[0]) {
            Some("0.0.0.0:"@ + s)
        } else {
            None
        }
    } else if p.len() == 3 && ipv4(p[0]) && port_or_range(p[1]) && target_port(p[2]) {
        Some(s)
    } else {
        None
    }
}

fn publish_port_arg_inner(spec: &str) -> (res: Option<String>)
    ensures
        opt_text(res) == published_plain(spec@),
{
    if spec.unicode_len() == 0 {
        return None;
    }
    if !has_char(spec, ':') {
        if is_target_port(spec) {
            return Some("0.0.0.0:".to_owned().concat(spec).concat(":").concat(spec));
        }
        return None;
    }
    let parts = split(spec, ':');
    if parts.len() == 2 {
        if !is_target_port(parts.get(1)) {
            return None;
        }
        if is_ipv4(parts.get(0)) {
            return Some(spec.to_owned().concat(":").concat(parts.get(1)));
        }
        if is_port_or_range(parts.get(0)) {
            return Some("0.0.0.0:".to_owned().concat(spec));
        }
        return None;
    }
    if parts.len() == 3 {
        if is_ipv4(parts.get(0)) && is_port_or_range(parts.get(1)) && is_target_port(
            parts.get(2),
        ) {
            return Some(spec.to_owned());
        }
    }
    None
}

/// Whether one of the texts is empty.
pub open spec fn some_empty(v: Seq<Seq<char>>) -> bool {
    exists|i: int| 0 <= i < v.len() && (#[trigger] v[i]).len() == 0
}

fn has_empty(v: &Texts) -> (res: bool)
    ensures
        res == some_empty(v@),
{
    let mut i: usize = 0;
    while i < v.len()
        invariant
            i <= v@.len(),
            forall|k: int| 0 <= k < i ==> (#[trigger] v@[k]).len() > 0,
        decreases v@.len() - i,
    {
        if v.get(i).unicode_len() == 0 {
            assert(v@[i as int].len() == 0);
            return true;
        }
        i = i + 1;
    }
    false
}

/// What follows the closing bracket of an address.
pub open spec fn after_bracket(s: Seq<char>) -> Seq<char> {
    s.skip(seek(s, ']', 0) + 1)
}

/// What `docker run -p` gets for a bracketed address: `[addr]:port` or `[addr]:port:port`.
pub open spec fn published_ipv6(s: Seq<char>) -> Option<Seq<char>> {
    let end = seek(s, ']', 0);
    let addr = s.subrange(1, end);
    if end >= s.len() || addr.len() == 0 || addr.contains('[') {
        None
    } else {
        match cut_once(after_bracket(s), ':') {
            None => None,
            Some(p) => {
                let ports = pieces(p.1, ':');
                if some_empty(ports) {
                    None
                } else if ports.len() == 1 && target_port(ports[0]) {
                    Some("["@ + addr + "]:"@ + ports[0] + ":"@ + ports[0])
                } else if ports.len() == 2 && port_or_range(ports[0]) && target_port(ports[1]) {
                    Some("["@ + addr + "]:"@ + ports[0] + ":"@ + ports[1])
                } else {
                    None
                }
            },
        }
    }
}

/// Publishes a bracketed address: `[::1]:8080` or `[::1]:8080:8080`.
fn publish_ipv6_arg(spec: &str) -> (res: Option<String>)
    requires
        spec@.len() > 0,
        spec@[0] == '[',
    ensures
        opt_text(res) == published_ipv6(spec@),
{
    let v = chars_of(spec);
    let end: usize = seek_char(&v, ']', 0);
    if end >= v.len() {
        return None;
    }
    let addr = text_of(&v, 1, end);
    if addr.as_str().unicode_len() == 0 || has_char(addr.as_str(), '[') {
        return None;
    }
    let rest = text_of(&v, end + 1, v.len());
    assert(rest@ =~= after_bracket(spec@));
    match split_once(rest.as_str(), ':') {
        None => None,
        Some((_, ports_part)) => {
            let ports = split(ports_part.as_str(), ':');
            if has_empty(&ports) {
                return None;
            }
            if ports.len() == 1 && is_target_port(ports.get(0)) {
                return Some(
                    "[".to_owned().concat(addr.as_str()).concat("]:").concat(ports.get(0)).concat(
                        ":",
                    ).concat(ports.get(0)),
                );
            }
            if ports.len() == 2 && is_port_or_range(ports.get(0)) && is_target_port(
                ports.get(1),
            ) {
                return Some(
                    "[".to_owned().concat(addr.as_str()).concat("]:").concat(ports.get(0)).concat(
                        ":",
                    ).concat(ports.get(1)),
                );
            }
            None
        },
    }
}

pub open spec fn published_base(s: Seq<char>) -> Option<Seq<char>> {
    if s.len() > 0 && s[0] == '[' {
        published_ipv6(s)
    } else {
        published_plain(s)
    }
}

/// What `docker run -p` gets for a specification. A `/udp` suffix is kept.
pub open spec fn published(s: Seq<char>) -> Option<Seq<char>> {
    match without_suffix(s, "/udp"@) {
        Some(base) => match published_base(base) {
            Some(p) => Some(p + "/udp"@),
            None => None,
        },
        None => published_base(s),
    }
}

fn publish_base(spec: &str) -> (res: Option<String>)
    ensures
        opt_text(res) == published_base(spec@),
{
    proof {
        reveal_strlit("[");
    }
    if starts_with(spec, "[") {
        assert(spec@.subrange(0, 1)[0] == spec@[0]);
        publish_ipv6_arg(spec)
    } else {
        assert(spec@.len() > 0 && spec@[0] == '[' ==> spec@.subrange(0, 1) =~= "["@);
        publish_port_arg_inner(spec)
    }
}

/// The argument that publishes a port of the container: `None` for specifications that name a
/// service or are not valid.
pub fn publish_port_arg(spec: &str) -> (res: Option<String>)
    ensures
        opt_text(res) == published(spec@),
{
    match strip_suffix(spec, "/udp") {
        Some(base) => match publish_base(base.as_str()) {
            Some(p) => Some(p.concat("/udp")),
            None => None,
        },
        None => publish_base(spec),
    }
}

// ---------------------------------------------------------------------------------------------
// Validation

pub open spec fn result_error(r: Result<(), String>) -> Option<Seq<char>> {
    match r {
        Ok(_) => None,
        Err(s) => Some(s@),
    }
}

/// Why a text cannot stand on the host side of a specification. Names and addresses are not
/// examined.
pub open spec fn host_port_error(p: Seq<char>) -> Option<Seq<char>> {
    if p.len() == 0 || !(forall|i: int| 0 <= i < p.len() ==> is_digit(#[trigger] p[i]) || p[i] == '-')
        || p == "0"@ {
        None
    } else {
        match cut_once(p, '-') {
            Some(r) => match (parsed_number(r.0, 65535), parsed_number(r.1, 65535)) {
                (Some(a), Some(b)) => if a > b {
                    Some("host port range '"@ + p + "' is reversed"@)
                } else {
                    None
                },
                _ => Some("'"@ + p + "' is not a valid host port or range"@),
            },
            None => if numeric(p, 65535) {
                None
            } else {
                Some("'"@ + p + "' is not a valid host port"@)
            },
        }
    }
}

fn only_digits_and_dashes(p: &str) -> (res: bool)
    ensures
        res == forall|i: int| 0 <= i < p@.len() ==> is_digit(#[trigger] p@[i]) || p@[i] == '-',
{
    let v = chars_of(p);
    let mut i: usize = 0;
    while i < v.len()
        invariant
            v@ == p@,
            i <= v@.len(),
            forall|k: int| 0 <= k < i ==> is_digit(#[trigger] p@[k]) || p@[k] == '-',
        decreases v@.len() - i,
    {
        let c = v[i];
        if !(('0' <= c && c <= '9') || c == '-') {
            assert(!(is_digit(p@[i as int]) || p@[i as int] == '-'));
            return false;
        }
        i = i + 1;
    }
    true
}

fn validate_host_port(p: &str) -> (res: Result<(), String>)
    ensures
        result_error(res) == host_port_error(p@),
{
    if p.unicode_len() == 0 || !only_digits_and_dashes(p) {
        return Ok(());
    }
    if same_text(p, "0") {
        return Ok(());
    }
    match split_once(p, '-') {
        Some((a, b)) => match (parse_number(a.as_str(), 65535), parse_number(b.as_str(), 65535)) {
            (Some(a), Some(b)) => if a > b {
                Err("host port range '".to_owned().concat(p).concat("' is reversed"))
            } else {
                Ok(())
            },
            _ => Err("'".to_owned().concat(p).concat("' is not a valid host port or range")),
        },
        None => if parse_number(p, 65535).is_some() {
            Ok(())
        } else {
            Err("'".to_owned().concat(p).concat("' is not a valid host port"))
        },
    }
}

/// Why a text cannot stand on the container side of a specification.
pub open spec fn container_port_error(p: Seq<char>) -> Option<Seq<char>> {
    match cut_once(p, '-') {
        Some(r) => match (parsed_number(r.0, 65535), parsed_number(r.1, 65535)) {
            (Some(a), Some(b)) => if a == 0 || b == 0 {
                Some("port '0' is not valid on the container side"@)
            } else if a > b {
                Some("port range '"@ + p + "' is reversed"@)
            } else {
                None
            },
            _ => Some("'"@ + p + "' is not a valid port or range"@),
        },
        None => match parsed_number(p, 65535) {
            Some(n) => if n == 0 {
                Some("port '0' is not valid on the container side"@)
            } else {
                None
            },
            None => Some("'"@ + p + "' is not a valid port"@),
        },
    }
}

fn validate_container_port(p: &str) -> (res: Result<(), String>)
    ensures
        result_error(res) == container_port_error(p@),
{
    match split_once(p, '-') {
        Some((a, b)) => match (parse_number(a.as_str(), 65535), parse_number(b.as_str(), 65535)) {
            (Some(a), Some(b)) => if a == 0 || b == 0 {
                Err("port '0' is not valid on the container side".to_owned())
            } else if a > b {
                Err("port range '".to_owned().concat(p).concat("' is reversed"))
            } else {
                Ok(())
            },
            _ => Err("'".to_owned().concat(p).concat("' is not a valid port or range")),
        },
        None => match parse_number(p, 65535) {
            Some(n) => if n == 0 {
                Err("port '0' is not valid on the container side".to_owned())
            } else {
                Ok(())
            },
            None => Err("'".to_owned().concat(p).concat("' is not a valid port")),
        },
    }
}

/// The specification without surrounding white space and without its protocol.
pub open spec fn bare_spec(s: Seq<char>) -> Seq<char> {
    let t = trimmed(s);
    match without_suffix(t, "/udp"@) {
        Some(b) => b,
        None => match without_suffix(t, "/tcp"@) {
            Some(b) => b,
            None => t,
        },
    }
}

/// Why a text cannot stand on the host side behind a bracketed address: only a port or a range can
/// stand there, and it may be 0.
pub open spec fn bound_port_error(p: Seq<char>) -> Option<Seq<char>> {
    match cut_once(p, '-') {
        Some(r) => match (parsed_number(r.0, 65535), parsed_number(r.1, 65535)) {
            (Some(a), Some(b)) => if a > b {
                Some("port range '"@ + p + "' is reversed"@)
            } else {
                None
            },
            _ => Some("'"@ + p + "' is not a valid port or range"@),
        },
        None => if numeric(p, 65535) {
            None
        } else {
            Some("'"@ + p + "' is not a valid port"@)
        },
    }
}

fn validate_bound_port(p: &str) -> (res: Result<(), String>)
    ensures
        result_error(res) == bound_port_error(p@),
{
    match split_once(p, '-') {
        Some((a, b)) => match (parse_number(a.as_str(), 65535), parse_number(b.as_str(), 65535)) {
            (Some(a), Some(b)) => if a > b {
                Err("port range '".to_owned().concat(p).concat("' is reversed"))
            } else {
                Ok(())
            },
            _ => Err("'".to_owned().concat(p).concat("' is not a valid port or range")),
        },
        None => if parse_number(p, 65535).is_some() {
            Ok(())
        } else {
            Err("'".to_owned().concat(p).concat("' is not a valid port"))
        },
    }
}

/// What is wrong with a bracketed specification.
pub open spec fn bracket_spec_error(s: Seq<char>) -> Option<Seq<char>> {
    if seek(s, ']', 0) >= s.len() {
        Some("unterminated IPv6 address"@)
    } else {
        match cut_once(after_bracket(s), ':') {
            None => Some("invalid IPv6 port form"@),
            Some(r) => {
                let parts = pieces(r.1, ':');
                if parts.len() > 2 || some_empty(parts) {
                    Some("invalid IPv6 port form"@)
                } else if parts.len() == 1 {
                    container_port_error(parts[0])
                } else if bound_port_error(parts[0]) is Some {
                    bound_port_error(parts[0])
                } else {
                    container_port_error(parts[1])
                }
            },
        }
    }
}

/// What is wrong with a port specification.
pub open spec fn port_spec_error(s: Seq<char>) -> Option<Seq<char>> {
    let b = bare_spec(s);
    let parts = pieces(b, ':');
    if trimmed(s).len() == 0 {
        Some("empty port specification"@)
    } else if b.len() > 0 && b[0] == '[' {
        bracket_spec_error(b)
    } else if parts.len() == 1 {
        container_port_error(parts[0])
    } else if parts.len() == 2 {
        if host_port_error(parts[0]) is Some {
            host_port_error(parts[0])
        } else {
            container_port_error(parts[1])
        }
    } else if parts.len() == 3 {
        if !ipv4(parts[0]) {
            Some("'"@ + parts[0] + "' is not a valid IPv4 bind address"@)
        } else if host_port_error(parts[1]) is Some {
            host_port_error(parts[1])
        } else {
            container_port_error(parts[2])
        }
    } else {
        Some("too many ':' in port specification"@)
    }
}

fn validate_bracket_spec(s: &str) -> (res: Result<(), String>)
    ensures
        result_error(res) == bracket_spec_error(s@),
{
    let v = chars_of(s);
    let end: usize = seek_char(&v, ']', 0);
    if end >= v.len() {
        return Err("unterminated IPv6 address".to_owned());
    }
    let rest = text_of(&v, end + 1, v.len());
    assert(rest@ =~= after_bracket(s@));
    match split_once(rest.as_str(), ':') {
        None => Err("invalid IPv6 port form".to_owned()),
        Some((_, ports_part)) => {
            let parts = split(ports_part.as_str(), ':');
            if parts.len() > 2 || has_empty(&parts) {
                return Err("invalid IPv6 port form".to_owned());
            }
            if parts.len() == 1 {
                return validate_container_port(parts.get(0));
            }
            match validate_bound_port(parts.get(0)) {
                Err(e) => Err(e),
                Ok(()) => validate_container_port(parts.get(1)),
            }
        },
    }
}

/// Checks a port specification: a port or a range, `host:container`, `ip:host:container`, a
/// bracketed IPv6 address, with an optional `/udp` or `/tcp`, or a service such as `db:5432`. The
/// port on the host may be 0, the one in the container may not.
pub fn validate_port_spec(s: &str) -> (res: Result<(), String>)
    ensures
        result_error(res) == port_spec_error(s@),
{
    let t = trim(s);
    if t.as_str().unicode_len() == 0 {
        return Err("empty port specification".to_owned());
    }
    let b = match strip_suffix(t.as_str(), "/udp") {
        Some(b) => b,
        None => match strip_suffix(t.as_str(), "/tcp") {
            Some(b) => b,
            None => t,
        },
    };
    proof {
        reveal_strlit("[");
    }
    if starts_with(b.as_str(), "[") {
        assert(b@.subrange(0, 1)[0] == b@[0]);
        return validate_bracket_spec(b.as_str());
    }
    assert(b@.len() > 0 && b@[0] == '[' ==> b@.subrange(0, 1) =~= "["@);
    let parts = split(b.as_str(), ':');
    if parts.len() == 1 {
        validate_container_port(parts.get(0))
    } else if parts.len() == 2 {
        match validate_host_port(parts.get(0)) {
            Err(e) => Err(e),
            Ok(()) => validate_container_port(parts.get(1)),
        }
    } else if parts.len() == 3 {
        if !is_ipv4(parts.get(0)) {
            return Err(
                "'".to_owned().concat(parts.get(0)).concat("' is not a valid IPv4 bind address"),
            );
        }
        match validate_host_port(parts.get(1)) {
            Err(e) => Err(e),
            Ok(()) => validate_container_port(parts.get(2)),
        }
    } else {
        Err("too many ':' in port specification".to_owned())
    }
}

// ---------------------------------------------------------------------------------------------
// Attributes of ports

/// Whether `key` is a range of numbers that holds `port`.
pub open spec fn range_holds(key: Seq<char>, port: nat) -> bool {
    cut_once(key, '-') matches Some(r) && parsed_number(r.0, 4294967295) matches Some(a)
        && parsed_number(r.1, 4294967295) matches Some(b) && a <= port <= b
}

/// The value of the first entry at or after `i` whose key is a range that holds `port`.
pub open spec fn range_entry(m: Seq<(Seq<char>, JsonView)>, port: nat, i: int) -> Option<JsonView>
    decreases m.len() - i,
{
    if i < 0 || i >= m.len() {
        None
    } else if range_holds(m[i].0, port) {
        Some(m[i].1)
    } else {
        range_entry(m, port, i + 1)
    }
}

/// The attributes of a port of the container: the entry whose key is the port itself, or else the
/// first one whose key is a range that holds it.
pub open spec fn entry_for(attrs: JsonView, port: Seq<char>) -> Option<JsonView> {
    match field(attrs, port) {
        Some(e) => Some(e),
        None => match (parsed_number(port, 4294967295), attrs) {
            (Some(n), JsonView::Object(m)) => range_entry(m, n, 0),
            _ => None,
        },
    }
}

fn is_range_holding(key: &str, port: u64) -> (res: bool)
    ensures
        res == range_holds(key@, port as nat),
{
    match split_once(key, '-') {
        Some((a, b)) => match (parse_number(a.as_str(), 4294967295), parse_number(
            b.as_str(),
            4294967295,
        )) {
            (Some(a), Some(b)) => a <= port && port <= b,
            _ => false,
        },
        None => false,
    }
}

/// The entry of `portsAttributes` for a port of the container. Keys that are regular expressions
/// are not evaluated.
pub fn attributes_entry<'a>(attrs: &'a Json, container_port: &str) -> (res: Option<&'a Json>)
    ensures
        opt_json(res) == entry_for(attrs@, container_port@),
{
    broadcast use group_json;

    let exact = attrs.get(container_port);
    if exact.is_some() {
        return exact;
    }
    let port: u64 = match parse_number(container_port, 4294967295) {
        Some(n) => n,
        None => {
            return None;
        },
    };
    match attrs {
        Json::Object(v) => {
            let mut i: usize = 0;
            while i < v.len()
                invariant
                    i <= v@.len(),
                    *attrs == Json::Object(*v),
                    attrs@ == JsonView::Object(members(v@)),
                    field(attrs@, container_port@) is None,
                    parsed_number(container_port@, 4294967295) == Some(port as nat),
                    range_entry(members(v@), port as nat, 0) == range_entry(
                        members(v@),
                        port as nat,
                        i as int,
                    ),
                decreases v@.len() - i,
            {
                if is_range_holding(v[i].0.as_str(), port) {
                    assert(members(v@)[i as int].1 == v@[i as int].1@);
                    return Some(&v[i].1);
                }
                assert(!range_holds(members(v@)[i as int].0, port as nat));
                i = i + 1;
            }
            None
        },
        _ => None,
    }
}

/// The text without its `/udp` suffixes.
pub open spec fn without_udp(s: Seq<char>) -> Seq<char>
    decreases s.len(),
{
    if finishes_with(s, "/udp"@) && s.len() >= 4 {
        without_udp(s.take(s.len() - 4))
    } else {
        s
    }
}

/// The part of a specification that stands for the port of the container.
pub open spec fn container_port(spec: Seq<char>) -> Seq<char> {
    without_udp(pieces(spec, ':').last())
}

fn container_port_of(spec: &str) -> (res: String)
    ensures
        res@ == container_port(spec@),
{
    let parts = split(spec, ':');
    let mut port = parts.get(parts.len() - 1).to_owned();
    proof {
        reveal_strlit("/udp");
    }
    while ends_with(port.as_str(), "/udp")
        invariant
            "/udp"@.len() == 4,
            container_port(spec@) == without_udp(port@),
        decreases port@.len(),
    {
        let ghost before = port@;
        let v = chars_of(port.as_str());
        port = text_of(&v, 0, v.len() - 4);
        assert(port@ =~= before.take(before.len() - 4));
    }
    port
}

/// Whether the attributes of a port, or those of all other ports, give `name` the string `value`.
pub open spec fn attribute_is(
    c: DevContainerConfig,
    spec: Seq<char>,
    name: Seq<char>,
    value: Seq<char>,
) -> bool {
    ||| (c.ports_attributes matches Some(attrs) && entry_for(attrs@, container_port(spec)) matches Some(
        e,
    ) && field(e, name) == Some(JsonView::String(value)))
    ||| (c.other_ports_attributes matches Some(other) && field(other@, name) == Some(
        JsonView::String(value),
    ))
}

fn has_attribute(j: &Json, name: &str, value: &str) -> (res: bool)
    ensures
        res == (field(j@, name@) == Some(JsonView::String(value@))),
{
    match j.get(name) {
        Some(Json::String(s)) => same_text(s.as_str(), value),
        _ => false,
    }
}

fn is_attribute(c: &DevContainerConfig, spec: &str, name: &str, value: &str) -> (res: bool)
    ensures
        res == attribute_is(*c, spec@, name@, value@),
{
    let port = container_port_of(spec);
    if let Some(attrs) = &c.ports_attributes {
        if let Some(entry) = attributes_entry(attrs, port.as_str()) {
            if has_attribute(entry, name, value) {
                return true;
            }
        }
    }
    match &c.other_ports_attributes {
        Some(other) => has_attribute(other, name, value),
        None => false,
    }
}

/// Whether the attributes say that a port is a UDP port.
pub fn is_udp_port(config: &DevContainerConfig, port_spec: &str) -> (res: bool)
    ensures
        res == attribute_is(*config, port_spec@, "protocol"@, "udp"@),
{
    is_attribute(config, port_spec, "protocol", "udp")
}

/// Whether the attributes say that a port is not to be published.
pub fn is_port_ignored(config: &DevContainerConfig, port_spec: &str) -> (res: bool)
    ensures
        res == attribute_is(*config, port_spec@, "onAutoForward"@, "ignore"@),
{
    is_attribute(config, port_spec, "onAutoForward", "ignore")
}

/// The argument that publishes a port, as a UDP port where the attributes say so.
pub open spec fn published_for(c: DevContainerConfig, spec: Seq<char>) -> Option<Seq<char>> {
    match published(spec) {
        Some(p) => if attribute_is(c, spec, "protocol"@, "udp"@) && !finishes_with(p, "/udp"@) {
            Some(p + "/udp"@)
        } else {
            Some(p)
        },
        None => None,
    }
}

/// The arguments that publish the ports of a list, without those that are to be ignored.
pub open spec fn to_publish(c: DevContainerConfig, specs: Seq<Seq<char>>) -> Seq<Seq<char>>
    decreases specs.len(),
{
    if specs.len() == 0 {
        Seq::empty()
    } else {
        let before = to_publish(c, specs.drop_last());
        match published_for(c, specs.last()) {
            Some(p) => if attribute_is(c, specs.last(), "onAutoForward"@, "ignore"@) {
                before
            } else {
                before.push(p)
            },
            None => before,
        }
    }
}

pub fn publish_for(config: &DevContainerConfig, port_spec: &str) -> (res: Option<String>)
    ensures
        opt_text(res) == published_for(*config, port_spec@),
{
    match publish_port_arg(port_spec) {
        Some(p) => if is_udp_port(config, port_spec) && !ends_with(p.as_str(), "/udp") {
            Some(p.concat("/udp"))
        } else {
            Some(p)
        },
        None => None,
    }
}

// ---------------------------------------------------------------------------------------------
// Laws

/// A `/udp` suffix does not change whether and where a port is published: it is kept.
pub proof fn law_udp_suffix_is_kept(s: Seq<char>)
    requires
        !finishes_with(s, "/udp"@),
    ensures
        published(s + "/udp"@) == (match published(s) {
            Some(p) => Some(p + "/udp"@),
            None => None,
        }),
{
    let t = s + "/udp"@;
    assert(t.subrange(s.len() as int, t.len() as int) =~= "/udp"@);
    assert(t.take(s.len() as int) =~= s);
}

/// A plain number is a valid port exactly if it is not 0.
pub proof fn law_plain_ports(s: Seq<char>)
    requires
        numeric(s, 65535),
    ensures
        port_spec_error(s) is None <==> parsed_number(s, 65535) != Some(0nat),
{
    lemma_number_chars(s, 65535);
    reveal_strlit("/udp");
    reveal_strlit("/tcp");
    if finishes_with(s, "/udp"@) {
        assert(s.subrange(s.len() - 4, s.len() as int)[3] == s.last());
    }
    if finishes_with(s, "/tcp"@) {
        assert(s.subrange(s.len() - 4, s.len() as int)[3] == s.last());
    }
    assert(!s.contains(':'));
    lemma_seek_none(s, ':', 0);
    lemma_seek_none(s, '-', 0);
    assert(trimmed(s) == s);
    assert(s.subrange(0, s.len() as int) =~= s);
}

/// A port or a range of ports is published under its own numbers on all interfaces.
pub proof fn law_ports_and_ranges(s: Seq<char>)
    requires
        target_port(s),
    ensures
        published(s) == Some("0.0.0.0:"@ + s + ":"@ + s),
{
    lemma_port_chars(s);
    lemma_no_udp(s);
}

/// A port of the host in front of that of the container is published on all interfaces.
pub proof fn law_two_ports(host: Seq<char>, container: Seq<char>)
    requires
        port_or_range(host),
        target_port(container),
    ensures
        published(host + ":"@ + container) == Some("0.0.0.0:"@ + host + ":"@ + container),
{
    lemma_port_chars(host);
    lemma_port_chars(container);
    reveal_strlit(":");
    assert(":"@ =~= seq![':']);
    let s = host + ":"@ + container;
    lemma_two_pieces(host, ':', container);
    lemma_ends(host + ":"@, container);
    lemma_seek_none(host, '.', 0);
    assert(host.subrange(0, host.len() as int) =~= host);
    assert(pieces(host, '.').len() == 1);
    assert(s[host.len() as int] == ':');
    assert("0.0.0.0:"@ + s =~= "0.0.0.0:"@ + host + ":"@ + container);
}

/// A port behind an address is published under its own number on that address, whether that is an
/// IPv4 address or an IPv6 address in brackets.
pub proof fn law_addresses(addr: Seq<char>, port: Seq<char>)
    requires
        target_port(port),
    ensures
        ipv4(addr) ==> published(addr + ":"@ + port) == Some(
            addr + ":"@ + port + ":"@ + port,
        ),
        addr.len() > 0 && !addr.contains('[') && !addr.contains(']') ==> published(
            "["@ + addr + "]:"@ + port,
        ) == Some("["@ + addr + "]:"@ + port + ":"@ + port),
{
    lemma_port_chars(port);
    reveal_strlit(":");
    reveal_strlit("[");
    reveal_strlit("]:");
    assert(":"@ =~= seq![':']);
    if ipv4(addr) {
        lemma_ipv4_chars(addr);
        let s = addr + ":"@ + port;
        lemma_two_pieces(addr, ':', port);
        lemma_ends(addr + ":"@, port);
        assert(s[addr.len() as int] == ':');
    }
    if addr.len() > 0 && !addr.contains('[') && !addr.contains(']') {
        let s = "["@ + addr + "]:"@ + port;
        lemma_ends("["@ + addr + "]:"@, port);
        assert forall|k: int| 0 <= k < addr.len() + 1 implies s[k] != ']' by {
            if k > 0 {
                assert(addr.contains(addr[k - 1]));
            }
        }
        lemma_seek_is(s, ']', 0, addr.len() as int + 1);
        assert(s.subrange(1, addr.len() as int + 1) =~= addr);
        let rest = after_bracket(s);
        assert(rest =~= ":"@ + port);
        lemma_seek_is(rest, ':', 0, 0);
        assert(rest.skip(1) =~= port);
        lemma_seek_none(port, ':', 0);
        assert(port.subrange(0, port.len() as int) =~= port);
        assert(pieces(port, ':') =~= seq![port]);
    }
}

/// What a port or a range is written with.
proof fn lemma_port_chars(s: Seq<char>)
    requires
        port_or_range(s),
    ensures
        s.len() > 0,
        forall|k: int| 0 <= k < s.len() ==> is_digit(#[trigger] s[k]) || s[k] == '+' || s[k] == '-',
        is_digit(s.last()),
        !s.contains(':'),
{
    if numeric(s, 65535) {
        lemma_number_chars(s, 65535);
    } else {
        let p = cut_once(s, '-')->Some_0;
        lemma_number_chars(p.0, 65535);
        lemma_number_chars(p.1, 65535);
        lemma_seek(s, '-', 0);
        let at = seek(s, '-', 0);
        assert forall|k: int| 0 <= k < s.len() implies is_digit(#[trigger] s[k]) || s[k] == '+'
            || s[k] == '-' by {
            if k < at {
                assert(p.0[k] == s[k]);
            } else if k > at {
                assert(p.1[k - at - 1] == s[k]);
            }
        }
        assert(p.1.last() == s.last());
    }
}

proof fn lemma_number_chars(s: Seq<char>, max: nat)
    requires
        numeric(s, max),
    ensures
        s.len() > 0,
        forall|k: int| 0 <= k < s.len() ==> is_digit(#[trigger] s[k]) || s[k] == '+',
        is_digit(s.last()),
{
    if s[0] == '+' {
        let digits = s.skip(1);
        assert forall|k: int| 0 <= k < s.len() implies is_digit(#[trigger] s[k]) || s[k] == '+' by {
            if k > 0 {
                assert(is_digit(digits[k - 1]));
            }
        }
        assert(is_digit(digits.last()));
    }
}

proof fn lemma_no_udp(s: Seq<char>)
    requires
        s.len() > 0,
        is_digit(s.last()),
    ensures
        without_suffix(s, "/udp"@) is None,
        s[0] == '[' || published(s) == published_plain(s),
{
    reveal_strlit("/udp");
    if finishes_with(s, "/udp"@) {
        assert(s.subrange(s.len() - 4, s.len() as int)[3] == s.last());
    }
}

proof fn lemma_ends(a: Seq<char>, port: Seq<char>)
    requires
        port.len() > 0,
        is_digit(port.last()),
    ensures
        without_suffix(a + port, "/udp"@) is None,
{
    assert((a + port).last() == port.last());
    lemma_no_udp(a + port);
}

/// A text with one separator has two pieces.
proof fn lemma_two_pieces(a: Seq<char>, c: char, b: Seq<char>)
    requires
        !a.contains(c),
        !b.contains(c),
    ensures
        pieces(a + seq![c] + b, c) == seq![a, b],
{
    let s = a + seq![c] + b;
    let at = a.len() as int;
    assert forall|k: int| 0 <= k < at implies s[k] != c by {
        assert(a.contains(a[k]));
    }
    lemma_seek_is(s, c, 0, at);
    lemma_seek(s, c, at + 1);
    if seek(s, c, at + 1) < s.len() {
        let k = seek(s, c, at + 1);
        assert(b.contains(b[k - at - 1]));
    }
    assert(s.subrange(0, at) =~= a);
    assert(s.subrange(at + 1, s.len() as int) =~= b);
    assert(pieces_from(s, c, at + 1) =~= seq![b]);
    assert(pieces(s, c) =~= seq![a] + pieces_from(s, c, at + 1));
}

/// An IPv4 address begins with a digit or a sign, and has no colon.
proof fn lemma_ipv4_chars(s: Seq<char>)
    requires
        ipv4(s),
    ensures
        s.len() > 0,
        s[0] != '[',
        !s.contains(':'),
{
    lemma_pieces_cover(s, '.', 0);
    let octets = pieces(s, '.');
    assert forall|k: int| 0 <= k < s.len() implies s[k] == '.' || is_digit(#[trigger] s[k]) || s[k]
        == '+' by {
        if s[k] != '.' {
            let j = choose|j: int| 0 <= j < octets.len() && (#[trigger] octets[j]).contains(s[k]);
            lemma_number_chars(octets[j], 255);
            let m = choose|m: int| 0 <= m < octets[j].len() && octets[j][m] == s[k];
            assert(is_digit(octets[j][m]) || octets[j][m] == '+');
        }
    }
    if s.len() == 0 {
        assert(s.subrange(0, 0) =~= s);
        assert(octets.len() == 1);
    }
}

/// Every character that is no separator stands in one of the pieces.
proof fn lemma_pieces_cover(s: Seq<char>, c: char, i: int)
    requires
        0 <= i <= s.len(),
    ensures
        forall|k: int|
            i <= k < s.len() && s[k] != c ==> exists|j: int|
                0 <= j < pieces_from(s, c, i).len() && (#[trigger] pieces_from(s, c, i)[j]).contains(
                    #[trigger] s[k],
                ),
    decreases s.len() - i,
{
    let all = pieces_from(s, c, i);
    let at = seek(s, c, i);
    lemma_seek(s, c, i);
    if at < s.len() {
        lemma_pieces_cover(s, c, at + 1);
        let rest = pieces_from(s, c, at + 1);
        assert(all == seq![s.subrange(i, at)] + rest);
        assert forall|k: int| i <= k < s.len() && s[k] != c implies exists|j: int|
            0 <= j < all.len() && (#[trigger] all[j]).contains(#[trigger] s[k]) by {
            if k < at {
                assert(s.subrange(i, at)[k - i] == s[k]);
                assert(all[0].contains(s[k]));
            } else {
                let j = choose|j: int| 0 <= j < rest.len() && (#[trigger] rest[j]).contains(s[k]);
                assert(all[j + 1] == rest[j]);
                assert(all[j + 1].contains(s[k]));
            }
        }
    } else {
        let last = s.subrange(i, s.len() as int);
        assert(all == seq![last]);
        assert forall|k: int| i <= k < s.len() && s[k] != c implies exists|j: int|
            0 <= j < all.len() && (#[trigger] all[j]).contains(#[trigger] s[k]) by {
            assert(last[k - i] == s[k]);
            assert(all[0].contains(s[k]));
        }
    }
}

/// An argument that publishes a port is its own publishing argument.
pub proof fn law_published_ports_stay(s: Seq<char>)
    ensures
        published(s) matches Some(p) ==> published(p) == Some(p),
{
    if let Some(p) = published(s) {
        match without_suffix(s, "/udp"@) {
            Some(base) => {
                let q = published_base(base)->Some_0;
                lemma_base_stays(base);
                assert(p == q + "/udp"@);
                assert(p.subrange(q.len() as int, p.len() as int) =~= "/udp"@);
                assert(p.take(q.len() as int) =~= q);
            },
            None => {
                lemma_base_stays(s);
                lemma_no_udp(p);
            },
        }
    }
}

proof fn lemma_base_stays(s: Seq<char>)
    requires
        published_base(s) is Some,
    ensures
        ({
            let p = published_base(s)->Some_0;
            &&& p.len() > 0
            &&& is_digit(p.last())
            &&& published_base(p) == Some(p)
        }),
{
    reveal_strlit(":");
    assert(":"@ =~= seq![':']);
    if s[0] == '[' {
        lemma_bracketed_stays(s);
    } else {
        lemma_plain_stays(s);
    }
}

proof fn lemma_bracketed_stays(s: Seq<char>)
    requires
        s.len() > 0,
        s[0] == '[',
        published_ipv6(s) is Some,
    ensures
        ({
            let p = published_ipv6(s)->Some_0;
            &&& p.len() > 0
            &&& p[0] == '['
            &&& is_digit(p.last())
            &&& published_ipv6(p) == Some(p)
        }),
{
    reveal_strlit(":");
    reveal_strlit("[");
    reveal_strlit("]:");
    assert(":"@ =~= seq![':']);
    let p = published_ipv6(s)->Some_0;
    let end = seek(s, ']', 0);
    let addr = s.subrange(1, end);
    lemma_seek(s, ']', 0);
    let ports = pieces(cut_once(after_bracket(s), ':')->Some_0.1, ':');
    let a = ports[0];
    let b = if ports.len() == 1 {
        ports[0]
    } else {
        ports[1]
    };
    lemma_port_chars(a);
    lemma_port_chars(b);
    assert(p == "["@ + addr + "]:"@ + a + ":"@ + b);
    assert(p.last() == b.last());
    assert forall|k: int| 0 <= k < addr.len() + 1 implies p[k] != ']' by {
        if k > 0 {
            assert(p[k] == s[k]);
        }
    }
    lemma_seek_is(p, ']', 0, addr.len() as int + 1);
    assert(p.subrange(1, addr.len() as int + 1) =~= addr);
    let rest = after_bracket(p);
    assert(rest =~= ":"@ + a + ":"@ + b);
    lemma_seek_is(rest, ':', 0, 0);
    let both = a + seq![':'] + b;
    assert(rest.skip(1) =~= both);
    lemma_two_pieces(a, ':', b);
}

proof fn lemma_plain_stays(s: Seq<char>)
    requires
        published_plain(s) is Some,
    ensures
        ({
            let p = published_plain(s)->Some_0;
            &&& p.len() > 0
            &&& p[0] != '['
            &&& is_digit(p.last())
            &&& published_plain(p) == Some(p)
        }),
{
    reveal_strlit(":");
    assert(":"@ =~= seq![':']);
    let p = published_plain(s)->Some_0;
    let parts = pieces(s, ':');
    lemma_any_address();
    assert("0.0.0.0:"@ =~= "0.0.0.0"@ + ":"@) by {
        reveal_strlit("0.0.0.0");
        reveal_strlit("0.0.0.0:");
    }
    if !s.contains(':') {
        lemma_port_chars(s);
        lemma_three_parts("0.0.0.0"@, s, s);
        assert(p =~= "0.0.0.0"@ + ":"@ + s + ":"@ + s);
    } else if parts.len() == 2 {
        let a = parts[0];
        let b = parts[1];
        lemma_from_two_pieces(s, ':');
        lemma_port_chars(b);
        if ipv4(a) {
            lemma_ipv4_chars(a);
            lemma_three_parts(a, b, b);
            assert(p =~= a + ":"@ + b + ":"@ + b);
        } else {
            lemma_port_chars(a);
            lemma_three_parts("0.0.0.0"@, a, b);
            assert(p =~= "0.0.0.0"@ + ":"@ + a + ":"@ + b);
        }
    } else {
        lemma_ipv4_chars(parts[0]);
        lemma_port_chars(parts[2]);
        lemma_from_three_pieces(s, ':');
        assert(p.last() == parts[2].last());
        assert(p[0] == parts[0][0]);
    }
}

/// An address with two ports is published as it is.
proof fn lemma_three_parts(addr: Seq<char>, a: Seq<char>, b: Seq<char>)
    requires
        ipv4(addr),
        port_or_range(a),
        target_port(b),
    ensures
        ({
            let p = addr + ":"@ + a + ":"@ + b;
            &&& published_plain(p) == Some(p)
            &&& p.len() > 0
            &&& p[0] != '['
            &&& is_digit(p.last())
        }),
{
    reveal_strlit(":");
    assert(":"@ =~= seq![':']);
    let p = addr + ":"@ + a + ":"@ + b;
    lemma_ipv4_chars(addr);
    lemma_port_chars(a);
    lemma_port_chars(b);
    let rest = a + seq![':'] + b;
    assert(p =~= addr + seq![':'] + rest);
    lemma_first_piece(addr, ':', rest);
    lemma_two_pieces(a, ':', b);
    assert(pieces(p, ':') =~= seq![addr, a, b]);
    assert(p[addr.len() as int] == ':');
    assert(p.contains(':'));
    assert(p.last() == b.last());
    assert(p[0] == addr[0]);
}

/// The pieces of a text are what stands before its first separator and the pieces of the rest.
proof fn lemma_first_piece(a: Seq<char>, c: char, rest: Seq<char>)
    requires
        !a.contains(c),
    ensures
        pieces(a + seq![c] + rest, c) == seq![a] + pieces(rest, c),
{
    let s = a + seq![c] + rest;
    let at = a.len() as int;
    assert forall|k: int| 0 <= k < at implies s[k] != c by {
        assert(a.contains(a[k]));
    }
    lemma_seek_is(s, c, 0, at);
    assert(s.subrange(0, at) =~= a);
    lemma_shifted_pieces(a + seq![c], rest, c, 0);
}

/// Pieces do not depend on what stands before them.
proof fn lemma_shifted_pieces(front: Seq<char>, s: Seq<char>, c: char, i: int)
    requires
        0 <= i <= s.len(),
    ensures
        pieces_from(front + s, c, front.len() + i) == pieces_from(s, c, i),
    decreases s.len() - i,
{
    let all = front + s;
    let n = front.len() as int;
    lemma_seek(s, c, i);
    let at = seek(s, c, i);
    if at < s.len() {
        assert forall|k: int| n + i <= k < n + at implies all[k] != c by {
            assert(all[k] == s[k - n]);
        }
        lemma_seek_is(all, c, n + i, n + at);
        lemma_shifted_pieces(front, s, c, at + 1);
        assert(all.subrange(n + i, n + at) =~= s.subrange(i, at));
    } else {
        lemma_seek(all, c, n + i);
        let k = seek(all, c, n + i);
        if k < all.len() {
            assert(all[k] == s[k - n]);
        }
        assert(all.subrange(n + i, all.len() as int) =~= s.subrange(i, s.len() as int));
    }
}

proof fn lemma_from_two_pieces(s: Seq<char>, c: char)
    requires
        pieces(s, c).len() == 2,
    ensures
        s == pieces(s, c)[0] + seq![c] + pieces(s, c)[1],
{
    lemma_seek(s, c, 0);
    let at = seek(s, c, 0);
    lemma_seek(s, c, at + 1);
    reveal_with_fuel(pieces_from, 3);
    assert(s =~= s.subrange(0, at) + seq![c] + s.subrange(at + 1, s.len() as int));
}

proof fn lemma_from_three_pieces(s: Seq<char>, c: char)
    requires
        pieces(s, c).len() == 3,
    ensures
        s == pieces(s, c)[0] + seq![c] + pieces(s, c)[1] + seq![c] + pieces(s, c)[2],
{
    reveal_with_fuel(pieces_from, 4);
    lemma_seek(s, c, 0);
    let at = seek(s, c, 0);
    lemma_seek(s, c, at + 1);
    let next = seek(s, c, at + 1);
    lemma_seek(s, c, next + 1);
    assert(s =~= s.subrange(0, at) + seq![c] + s.subrange(at + 1, next) + seq![c] + s.subrange(
        next + 1,
        s.len() as int,
    ));
}

/// All interfaces are an IPv4 address.
proof fn lemma_any_address()
    ensures
        ipv4("0.0.0.0"@),
{
    reveal_strlit("0.0.0.0");
    let zero = seq!['0'];
    let s = "0.0.0.0"@;
    lemma_two_pieces(zero, '.', zero);
    lemma_first_piece(zero, '.', zero + seq!['.'] + zero);
    lemma_first_piece(zero, '.', zero + seq!['.'] + (zero + seq!['.'] + zero));
    assert(s =~= zero + seq!['.'] + (zero + seq!['.'] + (zero + seq!['.'] + zero)));
    assert(pieces(s, '.') =~= seq![zero, zero, zero, zero]);
    reveal_with_fuel(digits_value, 2);
    assert(numeric(zero, 255));
}

/// Behind a bracketed address a port on the host is judged like one in the container, but for 0.
pub proof fn law_bound_ports(p: Seq<char>)
    ensures
        bound_port_error(p) is Some && !port_or_range(p) ==> bound_port_error(p)
            == container_port_error(p),
        target_port(p) ==> bound_port_error(p) == container_port_error(p),
{
    if numeric(p, 65535) {
        lemma_number_chars(p, 65535);
        lemma_seek_none(p, '-', 0);
    }
}

proof fn lemma_decimal_port(n: nat)
    ensures
        decimal_text(n).len() > 0,
        is_digit(decimal_text(n)[0]),
        is_digit(decimal_text(n).last()),
        forall|k: int| 0 <= k < decimal_text(n).len() ==> is_digit(#[trigger] decimal_text(n)[k]),
        !decimal_text(n).contains(':') && !decimal_text(n).contains('-'),
        !decimal_text(n).contains('.'),
        parsed_number(decimal_text(n), 65535) == (if n <= 65535 {
            Some(n)
        } else {
            None
        }),
        cut_once(decimal_text(n), '-') is None,
        trimmed(decimal_text(n)) == decimal_text(n),
{
    let d = decimal_text(n);
    let none = Seq::<char>::empty();
    law_decimals_read_back(n, 65535);
    assert(is_digit(d[0]) && is_digit(d.last()));
    assert forall|k: int| 0 <= k < d.len() implies is_digit(#[trigger] d[k]) by {}
    lemma_seek_none(d, '-', 0);
    law_trimmed(none, d, none);
    assert(none + d + none =~= d);
}

proof fn lemma_decimal_range(a: nat, b: nat)
    ensures
        cut_once(decimal_text(a) + seq!['-'] + decimal_text(b), '-') == Some(
            (decimal_text(a), decimal_text(b)),
        ),
        parsed_number(decimal_text(a) + seq!['-'] + decimal_text(b), 65535) is None,
{
    let x = decimal_text(a);
    let y = decimal_text(b);
    let s = x + seq!['-'] + y;
    lemma_decimal_port(a);
    lemma_decimal_port(b);
    let at = x.len() as int;
    assert(s[at] == '-');
    assert forall|k: int| 0 <= k < at implies s[k] != '-' by {
        assert(is_digit(x[k]));
    }
    lemma_seek_is(s, '-', 0, at);
    assert(s.take(at) =~= x);
    assert(s.skip(at + 1) =~= y);
    assert(s[0] == x[0]);
    assert(!is_digit(s[at]));
}

/// A number from 1 to 65535 is a port that a container can have, and two of them with a dash in between
/// are a range; on the host 0 is one too. Each is published under its own number, and nothing else is.
pub proof fn law_numbers_are_ports(a: nat, b: nat)
    ensures
        target_port(decimal_text(a)) <==> 1 <= a <= 65535,
        port_or_range(decimal_text(a)) <==> a <= 65535,
        target_port(decimal_text(a) + seq!['-'] + decimal_text(b)) <==> 1 <= a <= 65535 && 1 <= b
            <= 65535,
        port_or_range(decimal_text(a) + seq!['-'] + decimal_text(b)) <==> a <= 65535 && b <= 65535,
        published(decimal_text(a)) == (if 1 <= a <= 65535 {
            Some("0.0.0.0:"@ + decimal_text(a) + ":"@ + decimal_text(a))
        } else {
            None
        }),
{
    lemma_decimal_port(a);
    lemma_decimal_port(b);
    lemma_decimal_range(a, b);
    lemma_no_udp(decimal_text(a));
}

/// The port of a container is accepted if and only if it is from 1 to 65535, a range if and only if it
/// does not run backwards either; the port of the host may be 0. What is accepted in this form is
/// published, and what is not is not.
pub proof fn law_valid_ports(h: nat, a: nat, b: nat)
    ensures
        port_spec_error(decimal_text(a)) is None <==> 1 <= a <= 65535,
        container_port_error(decimal_text(a) + seq!['-'] + decimal_text(b)) is None <==> 1 <= a <= b
            <= 65535,
        port_spec_error(decimal_text(h) + seq![':'] + decimal_text(a)) is None <==> h <= 65535 && 1
            <= a <= 65535,
        port_spec_error(decimal_text(h) + seq![':'] + decimal_text(a)) is None <==> published(
            decimal_text(h) + seq![':'] + decimal_text(a),
        ) is Some,
        port_spec_error(Seq::empty()) is Some,
{
    let none = Seq::<char>::empty();
    let x = decimal_text(h);
    let y = decimal_text(a);
    lemma_decimal_port(h);
    lemma_decimal_port(a);
    lemma_decimal_port(b);
    lemma_decimal_range(a, b);
    lemma_bare(y);
    law_pieces(y, none, ':');
    let s = x + seq![':'] + y;
    assert(s[0] == x[0] && s.last() == y.last());
    law_trimmed(none, s, none);
    assert(none + s + none =~= s);
    lemma_bare(s);
    lemma_two_pieces(x, ':', y);
    assert(host_port_error(x) is None <==> h <= 65535) by {
        if x == "0"@ {
            reveal_strlit("0");
            law_decimals_read_back(0, 65535);
            assert(decimal_text(0) =~= "0"@);
        }
    }
    lemma_no_udp(s);
    assert(s[x.len() as int] == ':');
    law_pieces(x, none, '.');
    law_trimmed(none, none, none);
    assert(none + none + none =~= none);
}

proof fn lemma_bare(s: Seq<char>)
    requires
        s.len() > 0,
        trimmed(s) == s,
        is_digit(s.last()),
    ensures
        bare_spec(s) == s,
{
    reveal_strlit("/udp");
    reveal_strlit("/tcp");
    if finishes_with(s, "/udp"@) {
        assert(s.subrange(s.len() - 4, s.len() as int)[3] == s.last());
    }
    if finishes_with(s, "/tcp"@) {
        assert(s.subrange(s.len() - 4, s.len() as int)[3] == s.last());
    }
}

/// What is said about a port goes by its number in the container, whatever stands before it and whether
/// or not it is a UDP port.
pub proof fn law_attributes_go_by_the_container_port(h: Seq<char>, a: nat)
    requires
        !h.contains(':'),
    ensures
        container_port(decimal_text(a)) == decimal_text(a),
        container_port(h + seq![':'] + decimal_text(a)) == decimal_text(a),
        container_port(decimal_text(a) + "/udp"@) == decimal_text(a),
{
    let none = Seq::<char>::empty();
    let d = decimal_text(a);
    lemma_decimal_port(a);
    lemma_no_udp(d);
    law_pieces(d, none, ':');
    law_pieces(h, d, ':');
    assert((seq![h] + seq![d]).last() == d);
    reveal_strlit("/udp");
    let t = d + "/udp"@;
    if t.contains(':') {
        let k = choose|k: int| 0 <= k < t.len() && t[k] == ':';
        if k < d.len() {
            assert(is_digit(d[k]));
        }
    }
    law_pieces(t, none, ':');
    assert(t.subrange(t.len() - 4, t.len() as int) =~= "/udp"@);
    assert(t.take(t.len() - 4) =~= d);
    assert(without_udp(t) == without_udp(d));
}

/// The entry for a port is the one under its own number, or else one under a range that holds it.
pub proof fn law_entries_for_ports(
    m: Seq<(Seq<char>, JsonView)>,
    n: nat,
    a: nat,
    b: nat,
    e: JsonView,
)
    requires
        n <= 65535,
        a <= 65535,
        b <= 65535,
    ensures
        lookup(m, decimal_text(n)) == Some(e) ==> entry_for(JsonView::Object(m), decimal_text(n))
            == Some(e),
        entry_for(
            JsonView::Object(seq![(decimal_text(a) + seq!['-'] + decimal_text(b), e)]),
            decimal_text(n),
        ) == (if a <= n <= b {
            Some(e)
        } else {
            None
        }),
{
    let key = decimal_text(a) + seq!['-'] + decimal_text(b);
    let one = seq![(key, e)];
    lemma_decimal_port(n);
    lemma_decimal_range(a, b);
    law_decimals_read_back(n, 4294967295);
    law_decimals_read_back(a, 4294967295);
    law_decimals_read_back(b, 4294967295);
    assert(key[decimal_text(a).len() as int] == '-');
    assert(key.contains('-'));
    lemma_key_index(one, decimal_text(n), 0);
    assert(field(JsonView::Object(one), decimal_text(n)) is None);
    assert(range_entry(one, n, 1) is None);
}

/// A port is a UDP port if and only if its specification or its attributes say so; the attributes of all
/// other ports count for every port.
pub proof fn law_udp_by_attributes(c: DevContainerConfig, spec: Seq<char>, p: Seq<char>)
    requires
        published(spec) == Some(p),
        !finishes_with(p, "/udp"@),
    ensures
        published_for(c, spec) == (if attribute_is(c, spec, "protocol"@, "udp"@) {
            Some(p + "/udp"@)
        } else {
            Some(p)
        }),
        c.ports_attributes is None && c.other_ports_attributes is None ==> published_for(c, spec)
            == Some(p) && !attribute_is(c, spec, "onAutoForward"@, "ignore"@),
        c.other_ports_attributes matches Some(j) ==> field(j@, "protocol"@) == Some(
            JsonView::String("udp"@),
        ) ==> published_for(c, spec) == Some(p + "/udp"@),
{
}

/// Ports given as numbers stand for their decimal notation, and texts for themselves.
pub proof fn law_port_values(n: u16, s: String)
    ensures
        parsed_number(forward_text(ForwardPort::Number(n)), 65535) == Some(n as nat),
        forward_text(ForwardPort::Text(s)) == s@,
        parsed_number(port_text(PortValue::Number(n)), 65535) == Some(n as nat),
        port_text(PortValue::Text(s)) == s@,
        app_ports(Some(AppPortValue::Single(PortValue::Text(s)))) == seq![s@],
        app_ports(None).len() == 0,
{
    law_decimals_read_back(n as nat, 65535);
}

/// Whether a specification is valid does not depend on the protocol behind it.
pub proof fn law_protocols(s: Seq<char>)
    requires
        s.len() > 0,
        !is_white_space(s[0]),
    ensures
        bare_spec(s + "/udp"@) == s,
        bare_spec(s + "/tcp"@) == s,
        port_spec_error(s + "/udp"@) == port_spec_error(s + "/tcp"@),
{
    reveal_strlit("/udp");
    reveal_strlit("/tcp");
    let none = Seq::<char>::empty();
    let u = s + "/udp"@;
    let t = s + "/tcp"@;
    law_trimmed(none, u, none);
    law_trimmed(none, t, none);
    assert(none + u + none =~= u && none + t + none =~= t);
    assert(u.subrange(u.len() - 4, u.len() as int) =~= "/udp"@);
    assert(t.subrange(t.len() - 4, t.len() as int) =~= "/tcp"@);
    if finishes_with(t, "/udp"@) {
        assert(t.subrange(t.len() - 4, t.len() as int)[1] == t[t.len() - 3]);
    }
    assert(u.take(u.len() - 4) =~= s);
    assert(t.take(t.len() - 4) =~= s);
}

/// Four numbers with dots between them are an address if and only if none is over 255.
pub proof fn law_address_numbers(a: nat, b: nat, c: nat, d: nat)
    ensures
        ipv4(
            decimal_text(a) + seq!['.'] + (decimal_text(b) + seq!['.'] + (decimal_text(c) + seq!['.']
                + decimal_text(d))),
        ) <==> a <= 255 && b <= 255 && c <= 255 && d <= 255,
        !ipv4(decimal_text(a)),
{
    let w = decimal_text(a);
    let x = decimal_text(b);
    let y = decimal_text(c);
    let z = decimal_text(d);
    lemma_decimal_port(a);
    lemma_decimal_port(b);
    lemma_decimal_port(c);
    lemma_decimal_port(d);
    let none = Seq::<char>::empty();
    let t = y + seq!['.'] + z;
    let r = x + seq!['.'] + t;
    law_pieces(z, none, '.');
    law_pieces(y, z, '.');
    law_pieces(x, t, '.');
    law_pieces(w, r, '.');
    let octets = pieces(w + seq!['.'] + r, '.');
    assert(octets =~= seq![w, x, y, z]);
    law_decimals_read_back(a, 255);
    law_decimals_read_back(b, 255);
    law_decimals_read_back(c, 255);
    law_decimals_read_back(d, 255);
    assert(octets[0] == w && octets[1] == x && octets[2] == y && octets[3] == z);
    if a <= 255 && b <= 255 && c <= 255 && d <= 255 {
        assert forall|i: int| 0 <= i < 4 implies numeric(#[trigger] octets[i], 255) by {
            assert(i == 0 || i == 1 || i == 2 || i == 3);
        }
    } else {
        assert(!numeric(octets[0], 255) || !numeric(octets[1], 255) || !numeric(octets[2], 255)
            || !numeric(octets[3], 255));
    }
}

/// A specification with an address is valid if and only if the address and both ports are.
pub proof fn law_valid_addresses(addr: Seq<char>, h: nat, a: nat)
    requires
        addr.len() > 0,
        !addr.contains(':'),
        !is_white_space(addr[0]),
        addr[0] != '[',
    ensures
        port_spec_error(
            addr + seq![':'] + (decimal_text(h) + seq![':'] + decimal_text(a)),
        ) is None <==> ipv4(addr) && h <= 65535 && 1 <= a <= 65535,
{
    let none = Seq::<char>::empty();
    let x = decimal_text(h);
    let y = decimal_text(a);
    lemma_decimal_port(h);
    lemma_decimal_port(a);
    let t = x + seq![':'] + y;
    let s = addr + seq![':'] + t;
    law_pieces(y, none, ':');
    law_pieces(x, y, ':');
    law_pieces(addr, t, ':');
    assert(pieces(s, ':') =~= seq![addr, x, y]);
    assert(s[0] == addr[0] && s.last() == y.last());
    law_trimmed(none, s, none);
    assert(none + s + none =~= s);
    lemma_bare(s);
    assert(host_port_error(x) is None <==> h <= 65535) by {
        if x == "0"@ {
            reveal_strlit("0");
            law_decimals_read_back(0, 65535);
            assert(decimal_text(0) =~= "0"@);
        }
    }
}

/// A port has an attribute if and only if its own entry gives it or the entry for all other ports does.
pub proof fn law_attributes(
    c: DevContainerConfig,
    spec: Seq<char>,
    name: Seq<char>,
    value: Seq<char>,
    own: Json,
    other: Json,
    entry: JsonView,
)
    ensures
        c.ports_attributes is None && c.other_ports_attributes is None ==> !attribute_is(
            c,
            spec,
            name,
            value,
        ),
        c.ports_attributes == Some(own) && entry_for(own@, container_port(spec)) == Some(entry)
            && c.other_ports_attributes is None ==> (attribute_is(c, spec, name, value) <==> field(
            entry,
            name,
        ) == Some(JsonView::String(value))),
        c.ports_attributes == Some(own) && entry_for(own@, container_port(spec)) is None
            && c.other_ports_attributes is None ==> !attribute_is(c, spec, name, value),
        c.ports_attributes is None && c.other_ports_attributes == Some(other) ==> (attribute_is(
            c,
            spec,
            name,
            value,
        ) <==> field(other@, name) == Some(JsonView::String(value))),
        c.other_ports_attributes == Some(other) && field(other@, name) == Some(
            JsonView::String(value),
        ) ==> attribute_is(c, spec, name, value),
{
}

} // verus!
