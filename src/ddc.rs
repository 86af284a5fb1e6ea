//! Display configuration: the operator's monitor entries, the displays that
//! detection reports, and the switch-ready configuration built from both.
use std::collections::HashMap;
use vstd::prelude::*;

use crate::helpers::{hex_u16_spec, IntegerFromHexString, ParseError};
use crate::text::{
    after_last, after_last_char, chars_of, i32_value, last_word, last_word_of,
    lemma_split_append, lemma_split_push_sep, parse_i32, parse_u16, split, split_spec,
    starts_with, starts_with_spec, string_from_chars, trim, trim_spec, unsigned_value,
};

verus! {

broadcast use vstd::std_specs::hash::group_hash_axioms;

/// The input sources a display is switched to when the USB device arrives and leaves.
#[derive(Debug, Clone, Copy, PartialEq, Eq, Structural)]
pub struct ModeSwitch {
    pub device_arrive_mode: u16,
    pub device_left_mode: u16,
}

/// One display ready to be switched: its bus and its two input sources.
#[derive(Debug, Clone, Copy, PartialEq, Eq, Structural)]
pub struct DDCDisplaySwitchConfig {
    pub display_bus_id: u16,
    pub device_arrive_mode: u16,
    pub device_left_mode: u16,
}

/// The USB device to watch and the displays to switch when it comes and goes.
pub struct SwitcherConfig {
    pub vendor_id: u16,
    pub product_id: u16,
    pub display_switch_configs: Vec<DDCDisplaySwitchConfig>,
}

/// One monitor entry `<display id>:<arrive mode>:<leave mode>`: a decimal
/// display id and two `0x`-prefixed hexadecimal input sources.
pub open spec fn monitor_entry_spec(s: Seq<char>) -> Result<(i32, ModeSwitch), ParseError> {
    let f = split_spec(s, ':');
    if f.len() != 3 {
        Err(ParseError::WrongFieldCount)
    } else {
        match i32_value(f[0]) {
            None => Err(ParseError::InvalidNumber),
            Some(id) => match hex_u16_spec(f[1]) {
                Err(e) => Err(e),
                Ok(arrive) => match hex_u16_spec(f[2]) {
                    Err(e) => Err(e),
                    Ok(left) => Ok(
                        (id as i32, ModeSwitch { device_arrive_mode: arrive, device_left_mode: left }),
                    ),
                },
            },
        }
    }
}

/// A list of monitor entries: the first malformed entry is the error; otherwise
/// each entry is added in order, a later entry replacing an earlier one with
/// the same display id.
pub open spec fn monitor_config_spec(entries: Seq<Seq<char>>) -> Result<Map<i32, ModeSwitch>, ParseError>
    decreases entries.len(),
{
    if entries.len() == 0 {
        Ok(Map::empty())
    } else {
        match monitor_config_spec(entries.drop_last()) {
            Err(e) => Err(e),
            Ok(m) => match monitor_entry_spec(entries.last()) {
                Err(e) => Err(e),
                Ok(entry) => Ok(m.insert(entry.0, entry.1)),
            },
        }
    }
}

/// The text of each string.
pub open spec fn texts(v: Seq<String>) -> Seq<Seq<char>> {
    v.map_values(|s: String| s@)
}

fn parse_monitor_entry(entry: &String) -> (r: Result<(i32, ModeSwitch), ParseError>)
    ensures
        r == monitor_entry_spec(entry@),
{
    let cs = chars_of(entry.as_str());
    let fields = split(&cs, ':');
    if fields.len() != 3 {
        return Err(ParseError::WrongFieldCount);
    }
    let id_text = string_from_chars(&fields[0]);
    let id = match parse_i32(id_text.as_str()) {
        Some(id) => id,
        None => {
            return Err(ParseError::InvalidNumber);
        },
    };
    let arrive_text = string_from_chars(&fields[1]);
    let arrive = match u16::from_hex_string(arrive_text.as_str()) {
        Ok(v) => v,
        Err(e) => {
            return Err(e);
        },
    };
    let left_text = string_from_chars(&fields[2]);
    let left = match u16::from_hex_string(left_text.as_str()) {
        Ok(v) => v,
        Err(e) => {
            return Err(e);
        },
    };
    Ok((id, ModeSwitch { device_arrive_mode: arrive, device_left_mode: left }))
}

/// Parses monitor entries into a map from display id to its input sources.
pub fn parse_monitor_config(config: Vec<String>) -> (r: Result<HashMap<i32, ModeSwitch>, ParseError>)
    ensures
        match r {
            Ok(m) => monitor_config_spec(texts(config@)) == Ok::<Map<i32, ModeSwitch>, ParseError>(m@),
            Err(e) => monitor_config_spec(texts(config@)) == Err::<Map<i32, ModeSwitch>, ParseError>(e),
        },
{
    let mut m: HashMap<i32, ModeSwitch> = HashMap::new();
    let mut i: usize = 0;
    while i < config.len()
        invariant
            i <= config.len(),
            monitor_config_spec(texts(config@).take(i as int)) == Ok::<Map<i32, ModeSwitch>, ParseError>(m@),
        decreases config.len() - i,
    {
        assert(texts(config@).take(i + 1).drop_last() =~= texts(config@).take(i as int));
        assert(texts(config@).take(i + 1).last() == config@[i as int]@);
        match parse_monitor_entry(&config[i]) {
            Ok((id, modes)) => {
                m.insert(id, modes);
            },
            Err(e) => {
                proof {
                    lemma_config_error_persists(texts(config@), i as int + 1);
                }
                return Err(e);
            },
        }
        i = i + 1;
    }
    assert(texts(config@).take(i as int) =~= texts(config@));
    Ok(m)
}

/// Once a prefix of the entries is malformed, so is every longer prefix, with the same error.
proof fn lemma_config_error_persists(entries: Seq<Seq<char>>, n: int)
    requires
        0 <= n <= entries.len(),
        monitor_config_spec(entries.take(n)) is Err,
    ensures
        monitor_config_spec(entries) == monitor_config_spec(entries.take(n)),
    decreases entries.len() - n,
{
    if n < entries.len() {
        assert(entries.take(n + 1).drop_last() =~= entries.take(n));
        lemma_config_error_persists(entries, n + 1);
    } else {
        assert(entries.take(n) =~= entries);
    }
}

/// Why the configuration could not be resolved against the detected displays.
#[derive(Debug, Clone, Copy, PartialEq, Eq, Structural)]
pub enum ResolveError {
    /// A `Display` line whose last word is not a display number.
    InvalidDisplayNumber,
    /// An `I2C bus` line whose text after its last `-` is not a bus number.
    InvalidBusId,
    /// None of the configured displays was detected.
    NoDisplaysResolved,
}

/// The word that opens a display record in detection output.
pub open spec fn display_tag() -> Seq<char> {
    seq!['D', 'i', 's', 'p', 'l', 'a', 'y']
}

/// The words that open a bus line in detection output.
pub open spec fn bus_tag() -> Seq<char> {
    seq!['I', '2', 'C', ' ', 'b', 'u', 's']
}

/// The position of display `id` in `ds`, or -1.
pub open spec fn index_of(ds: Seq<(i32, u16)>, id: i32) -> int
    decreases ds.len(),
{
    if ds.len() == 0 {
        -1
    } else if ds.last().0 == id {
        ds.len() - 1
    } else {
        index_of(ds.drop_last(), id)
    }
}

/// `ds` with display `id` on bus `bus`: a known display keeps its place and
/// takes the new bus, a new one goes last.
pub open spec fn record_bus(ds: Seq<(i32, u16)>, id: i32, bus: u16) -> Seq<(i32, u16)> {
    if index_of(ds, id) >= 0 {
        ds.update(index_of(ds, id), (id, bus))
    } else {
        ds.push((id, bus))
    }
}

/// The display whose record is open, and the displays found so far.
pub type DetectionState = (Option<i32>, Seq<(i32, u16)>);

/// One line of detection output read in state `st`.
pub open spec fn detect_line(st: DetectionState, line: Seq<char>) -> Result<DetectionState, ResolveError> {
    let t = trim_spec(line);
    if starts_with_spec(t, display_tag()) {
        match i32_value(last_word(line)) {
            Some(id) => Ok((Some(id as i32), st.1)),
            None => Err(ResolveError::InvalidDisplayNumber),
        }
    } else if starts_with_spec(t, bus_tag()) && st.0 is Some {
        match unsigned_value(after_last(line, |c: char| c == '-'), 10, 0xffff) {
            Some(bus) => Ok((st.0, record_bus(st.1, st.0->0, bus as u16))),
            None => Err(ResolveError::InvalidBusId),
        }
    } else {
        Ok(st)
    }
}

/// The lines of detection output read in order, stopping at the first bad one.
pub open spec fn detect_lines(lines: Seq<Seq<char>>) -> Result<DetectionState, ResolveError>
    decreases lines.len(),
{
    if lines.len() == 0 {
        Ok((None, Seq::empty()))
    } else {
        match detect_lines(lines.drop_last()) {
            Err(e) => Err(e),
            Ok(st) => detect_line(st, lines.last()),
        }
    }
}

/// The displays that detection output reports, each with its bus, in the order
/// in which they first appear.
pub open spec fn detection_spec(output: Seq<char>) -> Result<Seq<(i32, u16)>, ResolveError> {
    match detect_lines(split_spec(output, '\n')) {
        Ok(st) => Ok(st.1),
        Err(e) => Err(e),
    }
}

fn find_display(ds: &Vec<(i32, u16)>, id: i32) -> (r: Option<usize>)
    ensures
        match r {
            Some(k) => index_of(ds@, id) == k as int && k < ds.len(),
            None => index_of(ds@, id) == -1,
        },
{
    let mut k: usize = ds.len();
    assert(ds@.take(k as int) =~= ds@);
    while k > 0
        invariant
            k <= ds.len(),
            index_of(ds@, id) == index_of(ds@.take(k as int), id),
        decreases k,
    {
        assert(ds@.take(k as int).drop_last() =~= ds@.take(k - 1));
        if ds[k - 1].0 == id {
            return Some(k - 1);
        }
        k = k - 1;
    }
    None
}

fn detect_one_line(
    current: &mut Option<i32>,
    displays: &mut Vec<(i32, u16)>,
    line: &Vec<char>,
) -> (r: Result<(), ResolveError>)
    ensures
        match detect_line((*old(current), old(displays)@), line@) {
            Ok(st) => r is Ok && *final(current) == st.0 && final(displays)@ == st.1,
            Err(e) => r == Err::<(), ResolveError>(e),
        },
{
    let t = trim(line);
    let display: Vec<char> = vec!['D', 'i', 's', 'p', 'l', 'a', 'y'];
    let bus: Vec<char> = vec!['I', '2', 'C', ' ', 'b', 'u', 's'];
    assert(display@ =~= display_tag());
    assert(bus@ =~= bus_tag());
    if starts_with(&t, &display) {
        let word = string_from_chars(&last_word_of(line));
        match parse_i32(word.as_str()) {
            Some(id) => {
                *current = Some(id);
                Ok(())
            },
            None => Err(ResolveError::InvalidDisplayNumber),
        }
    } else if starts_with(&t, &bus) && current.is_some() {
        let id = current.unwrap();
        let tail = string_from_chars(&after_last_char(line, '-'));
        match parse_u16(tail.as_str()) {
            Some(b) => {
                match find_display(displays, id) {
                    Some(k) => {
                        displays.set(k, (id, b));
                    },
                    None => {
                        displays.push((id, b));
                    },
                }
                Ok(())
            },
            None => Err(ResolveError::InvalidBusId),
        }
    } else {
        Ok(())
    }
}

/// Reads the displays and their buses out of the terse output of display
/// detection.
pub fn parse_detection(output: &str) -> (r: Result<Vec<(i32, u16)>, ResolveError>)
    ensures
        match r {
            Ok(ds) => detection_spec(output@) == Ok::<Seq<(i32, u16)>, ResolveError>(ds@),
            Err(e) => detection_spec(output@) == Err::<Seq<(i32, u16)>, ResolveError>(e),
        },
{
    let cs = chars_of(output);
    let lines = split(&cs, '\n');
    let ghost all = split_spec(output@, '\n');
    assert(lines@.map_values(|l: Vec<char>| l@) =~= all);
    let mut current: Option<i32> = None;
    let mut displays: Vec<(i32, u16)> = Vec::new();
    let mut i: usize = 0;
    while i < lines.len()
        invariant
            i <= lines.len() == all.len(),
            all == split_spec(output@, '\n'),
            forall|k: int| 0 <= k < lines.len() ==> #[trigger] lines[k]@ == all[k],
            detect_lines(all.take(i as int)) == Ok::<DetectionState, ResolveError>((current, displays@)),
        decreases lines.len() - i,
    {
        assert(all.take(i + 1).drop_last() =~= all.take(i as int));
        assert(all.take(i + 1).last() == lines[i as int]@);
        let ghost before: DetectionState = (current, displays@);
        match detect_one_line(&mut current, &mut displays, &lines[i]) {
            Ok(()) => {},
            Err(e) => {
                proof {
                    assert(detect_line(before, all[i as int]) == Err::<DetectionState, ResolveError>(e));
                    assert(detect_lines(all.take(i + 1)) == Err::<DetectionState, ResolveError>(e));
                    lemma_detection_error_persists(all, i as int + 1);
                }
                return Err(e);
            },
        }
        i = i + 1;
    }
    assert(all.take(i as int) =~= all);
    Ok(displays)
}

/// Once a prefix of the lines is bad, so is every longer prefix, with the same error.
proof fn lemma_detection_error_persists(lines: Seq<Seq<char>>, n: int)
    requires
        0 <= n <= lines.len(),
        detect_lines(lines.take(n)) is Err,
    ensures
        detect_lines(lines) == detect_lines(lines.take(n)),
    decreases lines.len() - n,
{
    if n < lines.len() {
        assert(lines.take(n + 1).drop_last() =~= lines.take(n));
        lemma_detection_error_persists(lines, n + 1);
    } else {
        assert(lines.take(n) =~= lines);
    }
}

/// The switch entry for a detected display `d` with input sources `modes`.
pub open spec fn entry_for(d: (i32, u16), modes: ModeSwitch) -> DDCDisplaySwitchConfig {
    DDCDisplaySwitchConfig {
        display_bus_id: d.1,
        device_arrive_mode: modes.device_arrive_mode,
        device_left_mode: modes.device_left_mode,
    }
}

/// The detected displays that are also configured, in detection order, each
/// with its bus and its configured input sources. Configured displays that
/// were not detected are left out.
pub open spec fn resolve_spec(declared: Map<i32, ModeSwitch>, detected: Seq<(i32, u16)>) -> Seq<
    DDCDisplaySwitchConfig,
>
    decreases detected.len(),
{
    if detected.len() == 0 {
        Seq::empty()
    } else {
        let prev = resolve_spec(declared, detected.drop_last());
        let d = detected.last();
        if declared.contains_key(d.0) {
            prev.push(entry_for(d, declared[d.0]))
        } else {
            prev
        }
    }
}

/// The switch-ready configuration for `declared` given detection output: the
/// detection error if the output is malformed, and an error if no configured
/// display was detected.
pub open spec fn switcher_spec(declared: Map<i32, ModeSwitch>, output: Seq<char>) -> Result<
    Seq<DDCDisplaySwitchConfig>,
    ResolveError,
> {
    match detection_spec(output) {
        Err(e) => Err(e),
        Ok(ds) => if resolve_spec(declared, ds).len() == 0 {
            Err(ResolveError::NoDisplaysResolved)
        } else {
            Ok(resolve_spec(declared, ds))
        },
    }
}

/// Pairs each detected display that is configured with its input sources.
pub fn resolve_displays(declared: &HashMap<i32, ModeSwitch>, detected: &Vec<(i32, u16)>) -> (r: Result<
    Vec<DDCDisplaySwitchConfig>,
    ResolveError,
>)
    ensures
        match r {
            Ok(v) => v@ == resolve_spec(declared@, detected@) && v.len() > 0,
            Err(e) => e == ResolveError::NoDisplaysResolved && resolve_spec(declared@, detected@).len()
                == 0,
        },
{
    let mut out: Vec<DDCDisplaySwitchConfig> = Vec::new();
    let mut i: usize = 0;
    while i < detected.len()
        invariant
            i <= detected.len(),
            out@ == resolve_spec(declared@, detected@.take(i as int)),
        decreases detected.len() - i,
    {
        assert(detected@.take(i + 1).drop_last() =~= detected@.take(i as int));
        let d = detected[i];
        match declared.get(&d.0) {
            Some(modes) => {
                out.push(
                    DDCDisplaySwitchConfig {
                        display_bus_id: d.1,
                        device_arrive_mode: modes.device_arrive_mode,
                        device_left_mode: modes.device_left_mode,
                    },
                );
            },
            None => {},
        }
        i = i + 1;
    }
    assert(detected@.take(i as int) =~= detected@);
    if out.len() == 0 {
        Err(ResolveError::NoDisplaysResolved)
    } else {
        Ok(out)
    }
}

/// Whether detection reported display `id`.
pub open spec fn is_detected(detected: Seq<(i32, u16)>, id: i32) -> bool {
    exists|k: int| 0 <= k < detected.len() && (#[trigger] detected[k]).0 == id
}

fn detected_contains(detected: &Vec<(i32, u16)>, id: i32) -> (r: bool)
    ensures
        r == is_detected(detected@, id),
{
    let mut k: usize = 0;
    while k < detected.len()
        invariant
            k <= detected.len(),
            forall|j: int| 0 <= j < k ==> (#[trigger] detected@[j]).0 != id,
        decreases detected.len() - k,
    {
        if detected[k].0 == id {
            assert(detected@[k as int].0 == id);
            return true;
        }
        k = k + 1;
    }
    false
}

proof fn lemma_take_all_contains(s: Seq<i32>, n: int)
    ensures
        n == s.len() ==> forall|x: i32| #[trigger] s.take(n).contains(x) == s.to_set().contains(x),
{
    if n == s.len() {
        assert(s.take(n) =~= s);
    }
}

/// The configured displays that detection did not report, each once, in no
/// particular order: these are the ones left out of the configuration.
pub fn missing_displays(declared: &HashMap<i32, ModeSwitch>, detected: &Vec<(i32, u16)>) -> (r: Vec<
    i32,
>)
    ensures
        r@.no_duplicates(),
        forall|id: i32| r@.contains(id) <==> declared@.contains_key(id) && !is_detected(detected@, id),
{
    let mut out: Vec<i32> = Vec::new();
    for id in it: declared.keys()
        invariant
            it.seq().no_duplicates(),
            it.seq().unref().to_set() == declared@.dom(),
            out@.no_duplicates(),
            forall|x: i32|
                out@.contains(x) <==> it.seq().unref().take(it.index() as int).contains(x)
                    && !is_detected(detected@, x),
            it.index() == it.seq().len() ==> forall|x: i32|
                out@.contains(x) <==> declared@.contains_key(x) && !is_detected(detected@, x),
    {
        let ghost i = it.index() as int;
        let ghost ks = it.seq().unref();
        proof {
            assert(ks.take(i + 1) =~= ks.take(i).push(*id));
            assert(!ks.take(i).contains(*id)) by {
                if ks.take(i).contains(*id) {
                    let j = choose|j: int| 0 <= j < i && ks.take(i)[j] == *id;
                    assert(it.seq()[j] == it.seq()[i]);
                }
            }
        }
        let ghost before = out@;
        let v = *id;
        let found = detected_contains(detected, v);
        if !found {
            out.push(v);
        }
        proof {
            lemma_take_all_contains(ks, i + 1);
            let t1 = ks.take(i + 1);
            let t0 = ks.take(i);
            assert forall|x: i32| t1.contains(x) && !is_detected(detected@, x) implies out@.contains(x) by {
                if x == v {
                    assert(out@[out@.len() - 1] == x);
                } else {
                    let j = choose|j: int| 0 <= j < t1.len() && #[trigger] t1[j] == x;
                    assert(t0[j] == x);
                    assert(t0.contains(x));
                    let m = choose|m: int| 0 <= m < before.len() && #[trigger] before[m] == x;
                    assert(out@[m] == x);
                }
            }
            assert forall|x: i32| out@.contains(x) implies t1.contains(x) && !is_detected(detected@, x) by {
                let m = choose|m: int| 0 <= m < out@.len() && #[trigger] out@[m] == x;
                if m < before.len() {
                    assert(before[m] == x);
                    assert(before.contains(x));
                    let j = choose|j: int| 0 <= j < t0.len() && #[trigger] t0[j] == x;
                    assert(t1[j] == x);
                } else {
                    assert(x == v);
                    assert(t1[i] == x);
                }
            }
            assert forall|x: i32| i + 1 == ks.len() implies (out@.contains(x) <==> declared@.contains_key(x)
                && !is_detected(detected@, x)) by {
                assert(t1.contains(x) == ks.to_set().contains(x));
                assert(ks.to_set().contains(x) == declared@.dom().contains(x));
            }
        }
    }
    out
}

impl SwitcherConfig {
    /// Builds the configuration for the USB device `vendor_id:product_id` from
    /// the configured displays and the output of display detection.
    pub fn new(
        vendor_id: u16,
        product_id: u16,
        displays_to_modes: HashMap<i32, ModeSwitch>,
        detection_output: &str,
    ) -> (r: Result<Self, ResolveError>)
        ensures
            match r {
                Ok(c) => c.vendor_id == vendor_id && c.product_id == product_id && switcher_spec(
                    displays_to_modes@,
                    detection_output@,
                ) == Ok::<Seq<DDCDisplaySwitchConfig>, ResolveError>(c.display_switch_configs@),
                Err(e) => switcher_spec(displays_to_modes@, detection_output@) == Err::<
                    Seq<DDCDisplaySwitchConfig>,
                    ResolveError,
                >(e),
            },
    {
        let detected = match parse_detection(detection_output) {
            Ok(ds) => ds,
            Err(e) => {
                return Err(e);
            },
        };
        match resolve_displays(&displays_to_modes, &detected) {
            Ok(configs) => Ok(SwitcherConfig { vendor_id, product_id, display_switch_configs: configs }),
            Err(e) => Err(e),
        }
    }
}

/// The text of a monitor entry with the given fields.
pub open spec fn entry_text(id: Seq<char>, arrive: Seq<char>, left: Seq<char>) -> Seq<char> {
    id.push(':') + arrive.push(':') + left
}

/// An entry made of a display id and two hexadecimal input sources, none of
/// them holding a `:`, yields a map from that id to those input sources.
pub proof fn lemma_valid_entry_parses(id: Seq<char>, arrive: Seq<char>, left: Seq<char>)
    requires
        forall|j: int| 0 <= j < id.len() ==> id[j] != ':',
        forall|j: int| 0 <= j < arrive.len() ==> arrive[j] != ':',
        forall|j: int| 0 <= j < left.len() ==> left[j] != ':',
        i32_value(id) is Some,
        hex_u16_spec(arrive) is Ok,
        hex_u16_spec(left) is Ok,
    ensures
        monitor_config_spec(seq![entry_text(id, arrive, left)]) == Ok::<Map<i32, ModeSwitch>, ParseError>(
            map![i32_value(id)->0 as i32 => ModeSwitch {
                device_arrive_mode: hex_u16_spec(arrive)->Ok_0,
                device_left_mode: hex_u16_spec(left)->Ok_0,
            }],
        ),
{
    let e = Seq::<char>::empty();
    lemma_split_append(e, id, ':');
    assert(e + id =~= id);
    assert(split_spec(id, ':') =~= seq![id]);
    lemma_split_push_sep(id, ':');
    let x1 = id.push(':');
    lemma_split_append(x1, arrive, ':');
    assert(split_spec(x1 + arrive, ':') =~= seq![id, arrive]);
    lemma_split_push_sep(x1 + arrive, ':');
    let x2 = (x1 + arrive).push(':');
    assert(x2 =~= x1 + arrive.push(':'));
    lemma_split_append(x2, left, ':');
    assert(split_spec(x2 + left, ':') =~= seq![id, arrive, left]);
    assert(x2 + left =~= entry_text(id, arrive, left));
    let entries = seq![entry_text(id, arrive, left)];
    let f = split_spec(entry_text(id, arrive, left), ':');
    assert(f.len() == 3 && f[0] == id && f[1] == arrive && f[2] == left);
    assert(monitor_entry_spec(entry_text(id, arrive, left)) == Ok::<(i32, ModeSwitch), ParseError>(
        (
            i32_value(id)->0 as i32,
            ModeSwitch {
                device_arrive_mode: hex_u16_spec(arrive)->Ok_0,
                device_left_mode: hex_u16_spec(left)->Ok_0,
            },
        ),
    ));
    assert(entries.drop_last() =~= Seq::<Seq<char>>::empty());
    assert(entries.last() == entry_text(id, arrive, left));
    assert(monitor_config_spec(entries.drop_last()) == Ok::<Map<i32, ModeSwitch>, ParseError>(
        Map::empty(),
    ));
    assert(Map::<i32, ModeSwitch>::empty().insert(
        i32_value(id)->0 as i32,
        ModeSwitch {
            device_arrive_mode: hex_u16_spec(arrive)->Ok_0,
            device_left_mode: hex_u16_spec(left)->Ok_0,
        },
    ) =~= map![i32_value(id)->0 as i32 => ModeSwitch {
        device_arrive_mode: hex_u16_spec(arrive)->Ok_0,
        device_left_mode: hex_u16_spec(left)->Ok_0,
    }]);
}

/// A list of monitor entries with a malformed entry anywhere in it is rejected.
pub proof fn lemma_malformed_entry_rejected(entries: Seq<Seq<char>>, i: int)
    requires
        0 <= i < entries.len(),
        monitor_entry_spec(entries[i]) is Err,
    ensures
        monitor_config_spec(entries) is Err,
    decreases entries.len(),
{
    if i < entries.len() - 1 {
        lemma_malformed_entry_rejected(entries.drop_last(), i);
    }
}

/// An entry whose field count is not three, or whose input sources lack the
/// `0x` prefix or are not hexadecimal 16-bit numbers, is malformed; text after
/// `0x` that is not all hexadecimal digits (a sign, a second `0x`) is rejected.
pub proof fn lemma_malformed_entry_kinds(s: Seq<char>)
    ensures
        split_spec(s, ':').len() != 3 ==> monitor_entry_spec(s) == Err::<(i32, ModeSwitch), ParseError>(
            ParseError::WrongFieldCount,
        ),
        split_spec(s, ':').len() == 3 && (hex_u16_spec(split_spec(s, ':')[1]) is Err
            || hex_u16_spec(split_spec(s, ':')[2]) is Err) ==> monitor_entry_spec(s) is Err,
        forall|t: Seq<char>|
            !starts_with_spec(t, crate::helpers::hex_prefix()) ==> #[trigger] hex_u16_spec(t) == Err::<
                u16,
                ParseError,
            >(ParseError::MissingHexPrefix),
        forall|t: Seq<char>|
            starts_with_spec(t, crate::helpers::hex_prefix()) && !crate::text::all_digits(t.skip(2), 16)
                ==> #[trigger] hex_u16_spec(t) == Err::<u16, ParseError>(ParseError::InvalidHex),
{
}

/// When an id appears in several entries, the last of them decides its input sources.
#[verifier::rlimit(40)]
pub proof fn lemma_later_duplicate_wins(entries: Seq<Seq<char>>, j: int)
    requires
        monitor_config_spec(entries) is Ok,
        0 <= j < entries.len(),
        monitor_entry_spec(entries[j]) is Ok,
        forall|k: int|
            j < k < entries.len() ==> (#[trigger] monitor_entry_spec(entries[k]))->Ok_0.0
                != monitor_entry_spec(entries[j])->Ok_0.0,
    ensures
        monitor_config_spec(entries)->Ok_0.contains_key(monitor_entry_spec(entries[j])->Ok_0.0),
        monitor_config_spec(entries)->Ok_0[monitor_entry_spec(entries[j])->Ok_0.0]
            == monitor_entry_spec(entries[j])->Ok_0.1,
    decreases entries.len(),
{
    let last = entries.len() - 1;
    if j < last {
        let prev = entries.drop_last();
        assert forall|k: int| j < k < prev.len() implies (#[trigger] monitor_entry_spec(prev[k]))->Ok_0.0
            != monitor_entry_spec(prev[j])->Ok_0.0 by {
            assert(prev[k] == entries[k]);
            assert(monitor_entry_spec(entries[k])->Ok_0.0 != monitor_entry_spec(entries[j])->Ok_0.0);
        }
        lemma_later_duplicate_wins(prev, j);
        assert(monitor_entry_spec(entries[last])->Ok_0.0 != monitor_entry_spec(entries[j])->Ok_0.0);
    }
}

/// The display ids of monitor entries, in order.
pub open spec fn entry_ids(entries: Seq<Seq<char>>) -> Seq<i32> {
    entries.map_values(|s: Seq<char>| monitor_entry_spec(s)->Ok_0.0)
}

/// A list of well-formed monitor entries is accepted. The map has exactly the
/// entries' display ids as keys, so as many keys as there are distinct ids,
/// and each id maps to the input sources of the last entry that names it.
pub proof fn lemma_valid_entries_parse(entries: Seq<Seq<char>>)
    requires
        forall|i: int| 0 <= i < entries.len() ==> #[trigger] monitor_entry_spec(entries[i]) is Ok,
    ensures
        monitor_config_spec(entries) is Ok,
        monitor_config_spec(entries)->Ok_0.dom() == entry_ids(entries).to_set(),
        monitor_config_spec(entries)->Ok_0.dom().len() == entry_ids(entries).to_set().len(),
        forall|j: int|
            0 <= j < entries.len() && (forall|k: int|
                j < k < entries.len() ==> entry_ids(entries)[k] != entry_ids(entries)[j])
                ==> monitor_config_spec(entries)->Ok_0[#[trigger] entry_ids(entries)[j]]
                == monitor_entry_spec(entries[j])->Ok_0.1,
    decreases entries.len(),
{
    let ids = entry_ids(entries);
    if entries.len() == 0 {
        assert(ids.to_set() =~= Set::<i32>::empty());
    } else {
        let prev = entries.drop_last();
        assert forall|i: int| 0 <= i < prev.len() implies #[trigger] monitor_entry_spec(prev[i]) is Ok by {
            assert(prev[i] == entries[i]);
        }
        lemma_valid_entries_parse(prev);
        let last = entries.len() - 1;
        assert(monitor_entry_spec(entries[last]) is Ok);
        assert(ids =~= entry_ids(prev).push(ids[last]));
        assert(ids.to_set() =~= entry_ids(prev).to_set().insert(ids[last])) by {
            assert forall|x: i32| ids.to_set().contains(x) implies entry_ids(prev).to_set().insert(
                ids[last],
            ).contains(x) by {
                let k = choose|k: int| 0 <= k < ids.len() && ids[k] == x;
                if k < last {
                    assert(entry_ids(prev)[k] == x);
                }
            }
            assert forall|x: i32| entry_ids(prev).to_set().insert(ids[last]).contains(x) implies ids.to_set().contains(
                x,
            ) by {
                if x != ids[last] {
                    let k = choose|k: int| 0 <= k < entry_ids(prev).len() && entry_ids(prev)[k] == x;
                    assert(ids[k] == x);
                } else {
                    assert(ids[last] == x);
                }
            }
        }
        assert(monitor_config_spec(entries)->Ok_0.dom() =~= ids.to_set());
        assert forall|j: int|
            0 <= j < entries.len() && (forall|k: int|
                j < k < entries.len() ==> entry_ids(entries)[k] != entry_ids(entries)[j])
                implies monitor_config_spec(entries)->Ok_0[#[trigger] entry_ids(entries)[j]]
                == monitor_entry_spec(entries[j])->Ok_0.1 by {
            assert forall|k: int| j < k < entries.len() implies (#[trigger] monitor_entry_spec(
                entries[k],
            ))->Ok_0.0 != monitor_entry_spec(entries[j])->Ok_0.0 by {
                assert(ids[k] != ids[j]);
            }
            lemma_later_duplicate_wins(entries, j);
        }
    }
}

/// The position in `detected` of the display that resolved entry `i` comes from.
proof fn lemma_resolved_source(declared: Map<i32, ModeSwitch>, detected: Seq<(i32, u16)>, i: int) -> (k:
    int)
    requires
        0 <= i < resolve_spec(declared, detected).len(),
    ensures
        0 <= k < detected.len(),
        declared.contains_key(detected[k].0),
        resolve_spec(declared, detected)[i] == entry_for(detected[k], declared[detected[k].0]),
    decreases detected.len(),
{
    let prev = detected.drop_last();
    if i < resolve_spec(declared, prev).len() {
        let k = lemma_resolved_source(declared, prev, i);
        assert(prev[k] == detected[k]);
        k
    } else {
        detected.len() - 1
    }
}

/// A display is switched only if it is both configured and reported by
/// detection: entry `i` of the resolved configuration comes from the detected
/// display at position `k`, which is configured, and carries its bus and its
/// configured input sources.
pub proof fn lemma_resolved_displays_configured_and_detected(
    declared: Map<i32, ModeSwitch>,
    output: Seq<char>,
    i: int,
) -> (k: int)
    requires
        switcher_spec(declared, output) is Ok,
        0 <= i < switcher_spec(declared, output)->Ok_0.len(),
    ensures
        detection_spec(output) is Ok,
        0 <= k < detection_spec(output)->Ok_0.len(),
        declared.contains_key(detection_spec(output)->Ok_0[k].0),
        switcher_spec(declared, output)->Ok_0[i] == entry_for(
            detection_spec(output)->Ok_0[k],
            declared[detection_spec(output)->Ok_0[k].0],
        ),
{
    lemma_resolved_source(declared, detection_spec(output)->Ok_0, i)
}

proof fn lemma_resolve_empty_iff(declared: Map<i32, ModeSwitch>, detected: Seq<(i32, u16)>)
    ensures
        resolve_spec(declared, detected).len() == 0 <==> forall|k: int|
            0 <= k < detected.len() ==> !declared.contains_key(#[trigger] detected[k].0),
    decreases detected.len(),
{
    if detected.len() > 0 {
        let prev = detected.drop_last();
        lemma_resolve_empty_iff(declared, prev);
        if resolve_spec(declared, detected).len() == 0 {
            assert forall|k: int| 0 <= k < detected.len() implies !declared.contains_key(
                #[trigger] detected[k].0,
            ) by {
                if k < prev.len() {
                    assert(prev[k] == detected[k]);
                }
            }
        } else {
            if forall|k: int| 0 <= k < detected.len() ==> !declared.contains_key(#[trigger] detected[k].0) {
                assert forall|k: int| 0 <= k < prev.len() implies !declared.contains_key(
                    #[trigger] prev[k].0,
                ) by {
                    assert(prev[k] == detected[k]);
                }
                assert(!declared.contains_key(detected[detected.len() - 1].0));
            }
        }
    }
}

/// When no configured display is among the detected ones, building the
/// configuration fails; and it fails for that reason only then.
pub proof fn lemma_no_common_display_aborts(declared: Map<i32, ModeSwitch>, output: Seq<char>)
    requires
        detection_spec(output) is Ok,
    ensures
        switcher_spec(declared, output) == Err::<Seq<DDCDisplaySwitchConfig>, ResolveError>(
            ResolveError::NoDisplaysResolved,
        ) <==> forall|k: int|
            0 <= k < detection_spec(output)->Ok_0.len() ==> !declared.contains_key(
                #[trigger] detection_spec(output)->Ok_0[k].0,
            ),
{
    lemma_resolve_empty_iff(declared, detection_spec(output)->Ok_0);
}

} // verus!
