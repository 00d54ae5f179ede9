//! The wireless-interface report that `netsh wlan show interfaces` prints,
//! and the Wi-Fi figures the dashboard takes from it.

use vstd::prelude::*;

use crate::text::{
    chars_of, dec, digit_char, is_white_space, trim_end, trim_start, lemma_remove_absent, lemma_split_append_plain,
    lemma_split_append_sep, lemma_trim_plain, remove_char, remove_char_chars, split_chars, split_on,
    starts_with,
    starts_with_str, string_from_chars, trim, trim_chars, views,
};

verus! {

/// Wi-Fi figures of the connected wireless interface.
#[derive(Debug, Clone)]
pub struct WifiStats {
    pub iface: String,
    pub rssi_dbm: Option<i32>,
    pub snr_db: Option<i32>,
}

/// What running the report command gave: whether it exited successfully, and
/// its standard output, decoded as UTF-8 with invalid bytes replaced.
#[derive(Debug, Clone)]
pub struct CommandOutput {
    pub success: bool,
    pub stdout: String,
}

/// The two fields the dashboard reads from the report.
#[derive(Debug, Clone)]
pub struct WlanReport {
    pub iface: Option<String>,
    pub signal_pct: Option<i32>,
}

/// The fields of a report, as character sequences.
pub struct WlanFields {
    pub iface: Option<Seq<char>>,
    pub signal_pct: Option<i32>,
}

impl View for WlanReport {
    type V = WlanFields;

    open spec fn view(&self) -> WlanFields {
        WlanFields {
            iface: match self.iface {
                Some(s) => Some(s@),
                None => None,
            },
            signal_pct: self.signal_pct,
        }
    }
}

/// Whether `c` is an ASCII decimal digit.
pub open spec fn is_digit(c: char) -> bool {
    48 <= (c as u32) <= 57
}

/// The value of a string of decimal digits.
pub open spec fn digits_value(s: Seq<char>) -> nat
    decreases s.len(),
{
    if s.len() == 0 {
        0
    } else {
        digits_value(s.drop_last()) * 10 + ((s.last() as u32) - 48) as nat
    }
}

/// The digits after an optional sign.
pub open spec fn unsigned_part(s: Seq<char>) -> Seq<char> {
    if s.len() > 0 && (s[0] == '-' || s[0] == '+') {
        s.drop_first()
    } else {
        s
    }
}

/// What `str::parse::<i32>` gives: an optional `+` or `-`, then one or more
/// ASCII digits, whose value lies in the range of `i32`.
pub open spec fn parse_i32(s: Seq<char>) -> Option<i32> {
    let ds = unsigned_part(s);
    let v: int = if s.len() > 0 && s[0] == '-' {
        -digits_value(ds)
    } else {
        digits_value(ds) as int
    };
    if ds.len() == 0 || !(forall|i: int| 0 <= i < ds.len() ==> is_digit(#[trigger] ds[i])) {
        None
    } else if i32::MIN <= v <= i32::MAX {
        Some(v as i32)
    } else {
        None
    }
}

/// The text after the first `:` of `line`, up to a second `:`, if there is a `:`.
pub open spec fn field_after_colon(line: Seq<char>) -> Option<Seq<char>> {
    let parts = split_on(line, ':');
    if parts.len() >= 2 {
        Some(parts[1])
    } else {
        None
    }
}

/// What one line changes in the fields read so far: a line that starts with
/// `Name` sets the interface to its trimmed value; a line that starts with
/// `Signal` sets the signal to its value without `%` signs, where that parses.
pub open spec fn scan_line(acc: WlanFields, raw: Seq<char>) -> WlanFields {
    let line = trim(raw);
    if starts_with(line, "Name"@) {
        match field_after_colon(line) {
            Some(v) => WlanFields { iface: Some(trim(v)), signal_pct: acc.signal_pct },
            None => acc,
        }
    } else if starts_with(line, "Signal"@) {
        match field_after_colon(line) {
            Some(v) => match parse_i32(remove_char(trim(v), '%')) {
                Some(p) => WlanFields { iface: acc.iface, signal_pct: Some(p) },
                None => acc,
            },
            None => acc,
        }
    } else {
        acc
    }
}

/// The fields read from `lines`, the last line that sets a field winning.
pub open spec fn scan_lines(lines: Seq<Seq<char>>) -> WlanFields
    decreases lines.len(),
{
    if lines.len() == 0 {
        WlanFields { iface: None, signal_pct: None }
    } else {
        scan_line(scan_lines(lines.drop_last()), lines.last())
    }
}

/// The fields read from a report, line by line.
pub open spec fn scan_report(text: Seq<char>) -> WlanFields {
    scan_lines(split_on(text, '\n'))
}

/// Whether a signal percentage can be turned into dBm within `i32`.
pub open spec fn signal_in_range(pct: int) -> bool {
    -35791394 <= pct <= 35791394
}

/// Division rounding towards zero, as Rust's `/` on integers.
pub open spec fn div_toward_zero(a: int, b: int) -> int
    recommends
        b > 0,
{
    if a >= 0 {
        a / b
    } else {
        -((-a) / b)
    }
}

/// The approximate RSSI of a signal percentage: 100 % is about -30 dBm, 0 %
/// about -90 dBm.
pub open spec fn rssi_of_signal(pct: int) -> int {
    -90 + div_toward_zero(pct * 60, 100)
}

/// The figures a report gives: some only where it names an interface and a
/// signal strength.
pub open spec fn wifi_of_report(f: WlanFields) -> Option<(Seq<char>, int)> {
    match (f.iface, f.signal_pct) {
        (Some(i), Some(p)) => Some((i, rssi_of_signal(p as int))),
        _ => None,
    }
}

/// Whether a command output gives a report whose signal can be converted.
pub open spec fn output_in_range(output: Option<CommandOutput>) -> bool {
    match output {
        Some(o) => o.success ==> match scan_report(o.stdout@).signal_pct {
            Some(p) => signal_in_range(p as int),
            None => true,
        },
        None => true,
    }
}

/// Parses `s` as `str::parse::<i32>` does.
pub fn parse_i32_chars(s: &Vec<char>) -> (r: Option<i32>)
    ensures
        r == parse_i32(s@),
{
    let n: usize = s.len();
    let neg: bool = n > 0 && s[0] == '-';
    let start: usize = if n > 0 && (s[0] == '-' || s[0] == '+') {
        1
    } else {
        0
    };
    let ghost ds = unsigned_part(s@);
    assert(ds =~= s@.subrange(start as int, n as int));
    if start == n {
        return None;
    }
    let mut acc: u64 = 0;
    let mut too_big: bool = false;
    let mut i: usize = start;
    assert(ds.take(0) =~= Seq::<char>::empty());
    while i < n
        invariant
            start <= i <= n == s.len(),
            ds == s@.subrange(start as int, n as int),
            ds == unsigned_part(s@),
            neg == (s@.len() > 0 && s@[0] == '-'),
            forall|j: int| 0 <= j < i - start ==> is_digit(#[trigger] ds[j]),
            !too_big ==> acc == digits_value(ds.take(i - start)),
            !too_big ==> acc <= 2147483648,
            too_big ==> digits_value(ds.take(i - start)) > 2147483648,
        decreases n - i,
    {
        let c = s[i];
        let u: u32 = c as u32;
        if u < 48 || u > 57 {
            assert(ds[i - start] == c);
            assert(!is_digit(ds[i - start]));
            assert(!(forall|j: int| 0 <= j < ds.len() ==> is_digit(#[trigger] ds[j])));
            return None;
        }
        let ghost k: int = i - start;
        assert(ds.take(k + 1).drop_last() =~= ds.take(k));
        assert(ds.take(k + 1).last() == c);
        if !too_big {
            let next: u64 = acc * 10 + (u - 48) as u64;
            if next > 2147483648 {
                too_big = true;
            } else {
                acc = next;
            }
        }
        i = i + 1;
    }
    assert(ds.take(n - start) =~= ds);
    if too_big {
        return None;
    }
    if neg {
        Some((0 - (acc as i64)) as i32)
    } else if acc <= 2147483647 {
        Some(acc as i32)
    } else {
        None
    }
}

/// The text after the first `:` of `line`, up to a second `:`.
fn field_after_colon_chars(line: &Vec<char>) -> (r: Option<Vec<char>>)
    ensures
        match (r, field_after_colon(line@)) {
            (Some(a), Some(b)) => a@ == b,
            (None, None) => true,
            _ => false,
        },
{
    let mut parts = split_chars(line, ':');
    if parts.len() >= 2 {
        let ghost pv = views(parts@);
        assert(pv[1] == parts@[1]@);
        let second = parts.remove(1);
        Some(second)
    } else {
        None
    }
}

/// Reads the interface name and the signal percentage from a report: of the
/// lines, as split on `'\n'` and trimmed, the last `Name` line with a `:` gives
/// the interface and the last `Signal` line whose value parses gives the signal.
pub fn scan_wlan_report(text: &str) -> (r: WlanReport)
    ensures
        r@ == scan_report(text@),
{
    let chars = chars_of(text);
    let lines = split_chars(&chars, '\n');
    let mut iface: Option<Vec<char>> = None;
    let mut signal: Option<i32> = None;
    let ghost lv = views(lines@);
    let mut i: usize = 0;
    assert(lv.take(0) =~= Seq::<Seq<char>>::empty());
    while i < lines.len()
        invariant
            i <= lines.len(),
            lv == views(lines@),
            lv == split_on(text@, '\n'),
            ({
                let f = scan_lines(lv.take(i as int));
                &&& f.signal_pct == signal
                &&& match (iface, f.iface) {
                    (Some(a), Some(b)) => a@ == b,
                    (None, None) => true,
                    _ => false,
                }
            }),
        decreases lines.len() - i,
    {
        assert(lv.take(i + 1).drop_last() =~= lv.take(i as int));
        assert(lv.take(i + 1).last() == lines@[i as int]@);
        let line = trim_chars(&lines[i]);
        if starts_with_str(&line, "Name") {
            match field_after_colon_chars(&line) {
                Some(v) => {
                    iface = Some(trim_chars(&v));
                },
                None => {},
            }
        } else if starts_with_str(&line, "Signal") {
            match field_after_colon_chars(&line) {
                Some(v) => {
                    let t = trim_chars(&v);
                    let digits = remove_char_chars(&t, '%');
                    match parse_i32_chars(&digits) {
                        Some(p) => {
                            signal = Some(p);
                        },
                        None => {},
                    }
                },
                None => {},
            }
        }
        i = i + 1;
    }
    assert(lv.take(lines.len() as int) =~= lv);
    let iface_str = match iface {
        Some(v) => Some(string_from_chars(v)),
        None => None,
    };
    WlanReport { iface: iface_str, signal_pct: signal }
}

/// Converts a signal percentage into an approximate RSSI in dBm: 100 % is
/// about -30 dBm, 0 % about -90 dBm.
pub fn signal_to_rssi_dbm(pct: i32) -> (dbm: i32)
    requires
        signal_in_range(pct as int),
    ensures
        dbm == rssi_of_signal(pct as int),
{
    let scaled: i32 = pct * 60;
    let q: i32 = if scaled >= 0 {
        scaled / 100
    } else {
        0 - ((0 - scaled) / 100)
    };
    -90 + q
}

/// The Wi-Fi figures that a run of `netsh wlan show interfaces` gives: none
/// where the command could not run (or this is not Windows, so `output` is
/// `None`) or failed, or where the report lacks the interface name or the
/// signal strength; otherwise the interface, the RSSI estimated from the
/// signal, and no SNR, which the report does not give.
pub fn get_wifi_stats_windows(output: Option<CommandOutput>) -> (r: Option<WifiStats>)
    requires
        output_in_range(output),
    ensures
        match output {
            Some(o) if o.success => match (r, wifi_of_report(scan_report(o.stdout@))) {
                (Some(w), Some((i, dbm))) => w.iface@ == i && w.rssi_dbm == Some(dbm as i32)
                    && w.snr_db.is_none(),
                (None, None) => true,
                _ => false,
            },
            _ => r.is_none(),
        },
{
    match output {
        None => None,
        Some(o) => {
            if !o.success {
                return None;
            }
            let report = scan_wlan_report(o.stdout.as_str());
            match (report.iface, report.signal_pct) {
                (Some(iface), Some(pct)) => {
                    let rssi_dbm = signal_to_rssi_dbm(pct);
                    Some(WifiStats { iface, rssi_dbm: Some(rssi_dbm), snr_db: None })
                },
                _ => None,
            }
        },
    }
}

/// Packets an interface dropped. No source for the count is read yet, so it
/// is always 0.
pub fn get_interface_drops_windows(_iface: &str) -> (drops: u64)
    ensures
        drops == 0,
{
    0
}

/// Signal percentages from 0 to 100 give RSSI estimates from -90 dBm (at 0 %)
/// to -30 dBm (at 100 %), never lower for a stronger signal.
pub proof fn lemma_rssi_scale(p: int, q: int)
    requires
        0 <= p <= q <= 100,
    ensures
        rssi_of_signal(0) == -90,
        rssi_of_signal(100) == -30,
        -90 <= rssi_of_signal(p) <= rssi_of_signal(q) <= -30,
{
    vstd::arithmetic::div_mod::lemma_div_is_ordered(p * 60, q * 60, 100);
    vstd::arithmetic::div_mod::lemma_div_is_ordered(q * 60, 6000, 100);
    vstd::arithmetic::div_mod::lemma_div_is_ordered(0, p * 60, 100);
}

/// Decimal renderings are non-empty strings of digits with the value they render.
pub proof fn lemma_dec_parses(n: nat)
    ensures
        dec(n).len() >= 1,
        forall|i: int| 0 <= i < dec(n).len() ==> is_digit(#[trigger] dec(n)[i]),
        digits_value(dec(n)) == n,
    decreases n,
{
    assert((digit_char(n % 10) as u32) == n % 10 + 48);
    if n >= 10 {
        lemma_dec_parses(n / 10);
        let d = dec(n / 10);
        assert(dec(n) == d.push(digit_char(n % 10)));
        assert forall|i: int| 0 <= i < dec(n).len() implies is_digit(#[trigger] dec(n)[i]) by {
            if i < d.len() {
                assert(dec(n)[i] == d[i]);
            }
        }
        assert(dec(n).drop_last() =~= d);
        assert(dec(n).last() == digit_char(n % 10));
        assert(digits_value(dec(n)) == digits_value(d) * 10 + ((dec(n).last() as u32) - 48) as nat);
        vstd::arithmetic::div_mod::lemma_fundamental_div_mod(n as int, 10);
    } else {
        assert(n % 10 == n);
        assert(dec(n).drop_last() =~= Seq::<char>::empty());
        assert(dec(n).last() == digit_char(n));
        assert(digits_value(dec(n)) == digits_value(dec(n).drop_last()) * 10 + ((dec(n).last() as u32) - 48) as nat);
    }
}

proof fn lemma_lines_of_two(l1: Seq<char>, l2: Seq<char>)
    requires
        forall|i: int| 0 <= i < l1.len() ==> l1[i] != '\n',
        forall|i: int| 0 <= i < l2.len() ==> l2[i] != '\n',
    ensures
        split_on(l1 + seq!['\n'] + l2 + seq!['\n'], '\n') == seq![l1, l2, Seq::<char>::empty()],
{
    let e = Seq::<char>::empty();
    lemma_split_append_plain(e, l1, '\n');
    assert(e + l1 =~= l1);
    lemma_split_append_sep(l1, '\n');
    lemma_split_append_plain(l1 + seq!['\n'], l2, '\n');
    lemma_split_append_sep(l1 + seq!['\n'] + l2, '\n');
    assert(split_on(l1 + seq!['\n'] + l2 + seq!['\n'], '\n') =~= seq![l1, l2, e]);
}

proof fn lemma_field_of(head: Seq<char>, value: Seq<char>)
    requires
        forall|i: int| 0 <= i < head.len() ==> head[i] != ':',
        forall|i: int| 0 <= i < value.len() ==> value[i] != ':',
    ensures
        field_after_colon(head + seq![':'] + value) == Some(value),
{
    let e = Seq::<char>::empty();
    lemma_split_append_plain(e, head, ':');
    assert(e + head =~= head);
    lemma_split_append_sep(head, ':');
    lemma_split_append_plain(head + seq![':'], value, ':');
    assert(split_on(head + seq![':'] + value, ':')[1] =~= value);
}

proof fn lemma_name_line(acc: WlanFields, name: Seq<char>)
    requires
        name.len() > 0,
        forall|i: int| 0 <= i < name.len() ==> name[i] != ':',
        !is_white_space(name[0]),
        !is_white_space(name.last()),
    ensures
        scan_line(acc, "Name: "@ + name) == (WlanFields { iface: Some(name), signal_pct: acc.signal_pct }),
{
    reveal_strlit("Name: ");
    reveal_strlit("Name");
    let l1 = "Name: "@ + name;
    let head = seq!['N', 'a', 'm', 'e'];
    let value = seq![' '] + name;
    assert(l1 =~= head + seq![':'] + value);
    lemma_trim_plain(l1);
    assert(l1.take(4) =~= "Name"@);
    assert forall|i: int| 0 <= i < value.len() implies value[i] != ':' by {
        if i >= 1 {
            assert(value[i] == name[i - 1]);
        }
    }
    lemma_field_of(head, value);
    assert(value.drop_first() =~= name);
    assert(is_white_space(value[0]));
    assert(trim_start(value) == trim_start(name));
    assert(trim_start(name) == name);
    assert(trim_end(name) == name);
    assert(trim(value) == name);
}

proof fn lemma_signal_line(acc: WlanFields, pct: nat)
    requires
        pct <= i32::MAX,
    ensures
        scan_line(acc, "Signal: "@ + dec(pct) + seq!['%']) == (WlanFields {
            iface: acc.iface,
            signal_pct: Some(pct as i32),
        }),
{
    reveal_strlit("Signal: ");
    reveal_strlit("Name");
    reveal_strlit("Signal");
    lemma_dec_parses(pct);
    let digits = dec(pct);
    let l2 = "Signal: "@ + digits + seq!['%'];
    let head = seq!['S', 'i', 'g', 'n', 'a', 'l'];
    let value = seq![' '] + digits + seq!['%'];
    assert(l2 =~= head + seq![':'] + value);
    lemma_trim_plain(l2);
    assert(l2.take(4)[0] != "Name"@[0]);
    assert(!starts_with(l2, "Name"@));
    assert(l2.take(6) =~= "Signal"@);
    assert forall|i: int| 0 <= i < value.len() implies value[i] != ':' by {
        if 1 <= i < value.len() - 1 {
            assert(value[i] == digits[i - 1]);
            assert(is_digit(digits[i - 1]));
        }
    }
    lemma_field_of(head, value);
    let shown = digits + seq!['%'];
    assert(value.drop_first() =~= shown);
    assert(is_digit(digits[0]));
    lemma_trim_plain(shown);
    assert(trim(value) == shown);
    assert forall|i: int| 0 <= i < digits.len() implies digits[i] != '%' by {
        assert(is_digit(digits[i]));
    }
    lemma_remove_absent(digits, '%');
    assert(shown.drop_last() =~= digits);
    assert(remove_char(shown, '%') == digits);
    assert(unsigned_part(digits) == digits);
    assert(parse_i32(digits) == Some(pct as i32));
}

/// The two lines of a report that give the interface name and the signal
/// percentage.
pub open spec fn report_lines(name: Seq<char>, pct: nat) -> Seq<char> {
    "Name: "@ + name + seq!['\n'] + "Signal: "@ + dec(pct) + seq!['%'] + seq!['\n']
}

/// A report that names an interface (without `:`, line breaks or white
/// space at its ends) and gives a signal percentage is read back as that
/// interface and that percentage.
pub proof fn lemma_report_read_back(name: Seq<char>, pct: nat)
    requires
        name.len() > 0,
        pct <= i32::MAX,
        forall|i: int| 0 <= i < name.len() ==> name[i] != ':' && name[i] != '\n',
        !is_white_space(name[0]),
        !is_white_space(name.last()),
    ensures
        scan_report(report_lines(name, pct)) == (WlanFields {
            iface: Some(name),
            signal_pct: Some(pct as i32),
        }),
{
    reveal_strlit("Name: ");
    reveal_strlit("Signal: ");
    lemma_dec_parses(pct);
    let digits = dec(pct);
    let e = Seq::<char>::empty();
    let l1 = "Name: "@ + name;
    let l2 = "Signal: "@ + digits + seq!['%'];
    assert forall|i: int| 0 <= i < l1.len() implies l1[i] != '\n' by {
        if i >= 6 {
            assert(l1[i] == name[i - 6]);
        }
    }
    assert forall|i: int| 0 <= i < l2.len() implies l2[i] != '\n' by {
        if 8 <= i < l2.len() - 1 {
            assert(l2[i] == digits[i - 8]);
            assert(is_digit(digits[i - 8]));
        }
    }
    lemma_lines_of_two(l1, l2);
    assert(report_lines(name, pct) =~= l1 + seq!['\n'] + l2 + seq!['\n']);
    let lines = seq![l1, l2, e];
    assert(lines.drop_last() =~= seq![l1, l2]);
    assert(lines.drop_last().drop_last() =~= seq![l1]);
    assert(lines.drop_last().drop_last().drop_last() =~= Seq::<Seq<char>>::empty());
    let acc0 = WlanFields { iface: None, signal_pct: None };
    lemma_name_line(acc0, name);
    let acc1 = WlanFields { iface: Some(name), signal_pct: None };
    lemma_signal_line(acc1, pct);
    let acc2 = WlanFields { iface: Some(name), signal_pct: Some(pct as i32) };
    assert(trim(e) =~= e);
    assert(scan_line(acc2, e) == acc2);
    assert(scan_lines(seq![l1]) == scan_line(scan_lines(Seq::<Seq<char>>::empty()), l1));
    assert(scan_lines(seq![l1]) == acc1);
    assert(scan_lines(seq![l1, l2]) == scan_line(scan_lines(seq![l1]), l2));
    assert(scan_lines(seq![l1, l2]) == acc2);
    assert(scan_lines(lines) == scan_line(scan_lines(seq![l1, l2]), e));
}

} // verus!
