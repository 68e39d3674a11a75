//! The bridge client: builds the exact command lines for the device-bridge
//! tool and parses its line-oriented output into typed records.  Running the
//! tool is an unverified concern of the surrounding application; every
//! function here is pure.

use vstd::prelude::*;
use crate::text::{
    spec_trim, spec_tokens, spec_lines, spec_find_char, spec_find, spec_contains_ci,
    spec_starts_with, dec_digits, lemma_find_char_characterizes, lemma_find_characterizes,
    trim_str, split_ws, split_lines, find_char, find_str, contains_ci, starts_with_str, eq_str,
    u64_to_dec, concat_str,
};

verus! {

/// One record of the device listing, exactly as the tool reports it.
#[derive(Debug, Clone, PartialEq, Eq)]
pub struct AdbDevice {
    pub serial: String,
    pub state: String,
    pub product: Option<String>,
    pub model: Option<String>,
    pub device: Option<String>,
    pub transport_id: Option<String>,
}

/// Mathematical image of an `AdbDevice`.
pub struct AdbDeviceView {
    pub serial: Seq<char>,
    pub state: Seq<char>,
    pub product: Option<Seq<char>>,
    pub model: Option<Seq<char>>,
    pub device: Option<Seq<char>>,
    pub transport_id: Option<Seq<char>>,
}

pub open spec fn opt_string_view(o: Option<String>) -> Option<Seq<char>> {
    match o {
        Some(s) => Some(s@),
        None => None,
    }
}

pub open spec fn opt_str_view(o: Option<&str>) -> Option<Seq<char>> {
    match o {
        Some(s) => Some(s@),
        None => None,
    }
}

impl View for AdbDevice {
    type V = AdbDeviceView;

    open spec fn view(&self) -> AdbDeviceView {
        AdbDeviceView {
            serial: self.serial@,
            state: self.state@,
            product: opt_string_view(self.product),
            model: opt_string_view(self.model),
            device: opt_string_view(self.device),
            transport_id: opt_string_view(self.transport_id),
        }
    }
}

/// A fully built command line for the device-bridge tool: the program path
/// and its arguments, ready to be handed to a process spawner.
pub struct AdbInvocation {
    pub program: String,
    pub args: Vec<String>,
}

/// Builder of device-bridge command lines and parser of the tool's output.
pub struct Adb {
    adb_path: String,
}

/// The `-s <serial>` selector that precedes a device-scoped command.
pub open spec fn serial_prefix(serial: Option<Seq<char>>) -> Seq<Seq<char>> {
    match serial {
        Some(s) => seq!["-s"@, s],
        None => Seq::empty(),
    }
}

impl View for Adb {
    type V = Seq<char>;

    closed spec fn view(&self) -> Seq<char> {
        self.adb_path@
    }
}

impl Adb {
    /// Remembers the path of the bridge executable; every invocation built by
    /// this value names that program.
    pub fn new(adb_path: String) -> (r: Adb)
        ensures
            r@ == adb_path@,
    {
        Adb { adb_path }
    }

    fn base_invocation(&self) -> (r: AdbInvocation)
        ensures
            r.program@ == self@,
            r.args@ == Seq::<String>::empty(),
            r.args.deep_view() == Seq::<Seq<char>>::empty(),
    {
        let r = AdbInvocation { program: self.adb_path.clone(), args: Vec::new() };
        proof {
            assert(r.args.deep_view() =~= Seq::<Seq<char>>::empty());
        }
        r
    }

    fn scoped_invocation(&self, serial: Option<&str>) -> (r: AdbInvocation)
        ensures
            r.program@ == self@,
            r.args.deep_view() == serial_prefix(opt_str_view(serial)),
    {
        let mut inv = self.base_invocation();
        if let Some(s) = serial {
            inv.args.push(String::from_str("-s"));
            inv.args.push(String::from_str(s));
            proof {
                assert(inv.args.deep_view() =~= seq!["-s"@, s@]);
            }
        }
        inv
    }

    pub fn version(&self) -> (r: AdbInvocation)
        ensures
            r.program@ == self@,
            r.args.deep_view() == seq!["version"@],
    {
        let mut inv = self.base_invocation();
        inv.args.push(String::from_str("version"));
        proof {
            assert(inv.args.deep_view() =~= seq!["version"@]);
        }
        inv
    }

    pub fn start_server(&self) -> (r: AdbInvocation)
        ensures
            r.program@ == self@,
            r.args.deep_view() == seq!["start-server"@],
    {
        let mut inv = self.base_invocation();
        inv.args.push(String::from_str("start-server"));
        proof {
            assert(inv.args.deep_view() =~= seq!["start-server"@]);
        }
        inv
    }

    pub fn kill_server(&self) -> (r: AdbInvocation)
        ensures
            r.program@ == self@,
            r.args.deep_view() == seq!["kill-server"@],
    {
        let mut inv = self.base_invocation();
        inv.args.push(String::from_str("kill-server"));
        proof {
            assert(inv.args.deep_view() =~= seq!["kill-server"@]);
        }
        inv
    }

    /// The listing command whose output `parse_devices` understands.
    pub fn devices(&self) -> (r: AdbInvocation)
        ensures
            r.program@ == self@,
            r.args.deep_view() == seq!["devices"@, "-l"@],
    {
        let mut inv = self.base_invocation();
        inv.args.push(String::from_str("devices"));
        inv.args.push(String::from_str("-l"));
        proof {
            assert(inv.args.deep_view() =~= seq!["devices"@, "-l"@]);
        }
        inv
    }

    /// Connect to `ip:port` over the network.
    pub fn connect(&self, ip: &str, port: u16) -> (r: AdbInvocation)
        ensures
            r.program@ == self@,
            r.args.deep_view() == seq!["connect"@, ip@ + seq![':'] + dec_digits(port as nat)],
    {
        let mut inv = self.base_invocation();
        inv.args.push(String::from_str("connect"));
        let mut address = concat_str(ip, ":");
        let port_str = u64_to_dec(port as u64);
        address.append(port_str.as_str());
        proof {
            reveal_strlit(":");
            assert(address@ =~= ip@ + seq![':'] + dec_digits(port as nat));
        }
        inv.args.push(address);
        proof {
            assert(inv.args.deep_view() =~= seq![
                "connect"@,
                ip@ + seq![':'] + dec_digits(port as nat),
            ]);
        }
        inv
    }

    pub fn disconnect(&self, address: &str) -> (r: AdbInvocation)
        ensures
            r.program@ == self@,
            r.args.deep_view() == seq!["disconnect"@, address@],
    {
        let mut inv = self.base_invocation();
        inv.args.push(String::from_str("disconnect"));
        inv.args.push(String::from_str(address));
        proof {
            assert(inv.args.deep_view() =~= seq!["disconnect"@, address@]);
        }
        inv
    }

    pub fn disconnect_all(&self) -> (r: AdbInvocation)
        ensures
            r.program@ == self@,
            r.args.deep_view() == seq!["disconnect"@],
    {
        let mut inv = self.base_invocation();
        inv.args.push(String::from_str("disconnect"));
        proof {
            assert(inv.args.deep_view() =~= seq!["disconnect"@]);
        }
        inv
    }

    /// Switch a device to network transport mode on the given port.
    pub fn tcpip(&self, device_serial: Option<&str>, port: u16) -> (r: AdbInvocation)
        ensures
            r.program@ == self@,
            r.args.deep_view() == serial_prefix(opt_str_view(device_serial)) + seq![
                "tcpip"@,
                dec_digits(port as nat),
            ],
    {
        let mut inv = self.scoped_invocation(device_serial);
        let ghost prefix = inv.args.deep_view();
        inv.args.push(String::from_str("tcpip"));
        inv.args.push(u64_to_dec(port as u64));
        proof {
            assert(inv.args.deep_view() =~= prefix + seq!["tcpip"@, dec_digits(port as nat)]);
        }
        inv
    }

    /// Run a shell command on the device.
    pub fn shell(&self, device_serial: Option<&str>, command: &str) -> (r: AdbInvocation)
        ensures
            r.program@ == self@,
            r.args.deep_view() == serial_prefix(opt_str_view(device_serial)) + seq![
                "shell"@,
                command@,
            ],
    {
        let mut inv = self.scoped_invocation(device_serial);
        let ghost prefix = inv.args.deep_view();
        inv.args.push(String::from_str("shell"));
        inv.args.push(String::from_str(command));
        proof {
            assert(inv.args.deep_view() =~= prefix + seq!["shell"@, command@]);
        }
        inv
    }

    /// Query one system property of the device.
    pub fn get_prop(&self, device_serial: Option<&str>, property: &str) -> (r: AdbInvocation)
        ensures
            r.program@ == self@,
            r.args.deep_view() == serial_prefix(opt_str_view(device_serial)) + seq![
                "shell"@,
                "getprop "@ + property@,
            ],
    {
        let command = concat_str("getprop ", property);
        self.shell(device_serial, command.as_str())
    }

    pub fn get_model(&self, device_serial: Option<&str>) -> (r: AdbInvocation)
        ensures
            r.program@ == self@,
            r.args.deep_view() == serial_prefix(opt_str_view(device_serial)) + seq![
                "shell"@,
                "getprop "@ + "ro.product.model"@,
            ],
    {
        self.get_prop(device_serial, "ro.product.model")
    }

    pub fn get_manufacturer(&self, device_serial: Option<&str>) -> (r: AdbInvocation)
        ensures
            r.program@ == self@,
            r.args.deep_view() == serial_prefix(opt_str_view(device_serial)) + seq![
                "shell"@,
                "getprop "@ + "ro.product.manufacturer"@,
            ],
    {
        self.get_prop(device_serial, "ro.product.manufacturer")
    }

    pub fn get_android_version(&self, device_serial: Option<&str>) -> (r: AdbInvocation)
        ensures
            r.program@ == self@,
            r.args.deep_view() == serial_prefix(opt_str_view(device_serial)) + seq![
                "shell"@,
                "getprop "@ + "ro.build.version.release"@,
            ],
    {
        self.get_prop(device_serial, "ro.build.version.release")
    }

    /// The route-table query whose output `get_device_ip` understands.
    pub fn route_table(&self, device_serial: Option<&str>) -> (r: AdbInvocation)
        ensures
            r.program@ == self@,
            r.args.deep_view() == serial_prefix(opt_str_view(device_serial)) + seq![
                "shell"@,
                "ip"@,
                "route"@,
            ],
    {
        let mut inv = self.scoped_invocation(device_serial);
        let ghost prefix = inv.args.deep_view();
        inv.args.push(String::from_str("shell"));
        inv.args.push(String::from_str("ip"));
        inv.args.push(String::from_str("route"));
        proof {
            assert(inv.args.deep_view() =~= prefix + seq!["shell"@, "ip"@, "route"@]);
        }
        inv
    }
}

/// Whether a token has the shape `key:value`.
pub open spec fn has_colon(tok: Seq<char>) -> bool {
    spec_find_char(tok, ':') >= 0
}

/// The part of a `key:value` token before the first colon.
pub open spec fn spec_key(tok: Seq<char>) -> Seq<char> {
    tok.take(spec_find_char(tok, ':'))
}

/// The part of a `key:value` token after the first colon.
pub open spec fn spec_value(tok: Seq<char>) -> Seq<char> {
    tok.skip(spec_find_char(tok, ':') + 1)
}

/// The value of the last `key:value` token whose key equals `key`, mirroring
/// the listing parser's left-to-right overwriting of repeated keys.
pub open spec fn spec_field(toks: Seq<Seq<char>>, key: Seq<char>) -> Option<Seq<char>>
    decreases toks.len(),
{
    if toks.len() == 0 {
        None
    } else if has_colon(toks.last()) && spec_key(toks.last()) == key {
        Some(spec_value(toks.last()))
    } else {
        spec_field(toks.drop_last(), key)
    }
}

/// One line of the device listing: at least two whitespace-separated tokens
/// (serial, then state); the remaining tokens fill the optional fields.
/// Lines with fewer than two tokens, blank lines included, yield nothing.
pub open spec fn spec_parse_line(line: Seq<char>) -> Option<AdbDeviceView> {
    let toks = spec_tokens(line);
    if toks.len() < 2 {
        None
    } else {
        Some(
            AdbDeviceView {
                serial: toks[0],
                state: toks[1],
                product: spec_field(toks.skip(2), "product"@),
                model: spec_field(toks.skip(2), "model"@),
                device: spec_field(toks.skip(2), "device"@),
                transport_id: spec_field(toks.skip(2), "transport_id"@),
            },
        )
    }
}

pub open spec fn spec_parse_lines(ls: Seq<Seq<char>>) -> Seq<AdbDeviceView>
    decreases ls.len(),
{
    if ls.len() == 0 {
        Seq::empty()
    } else {
        match spec_parse_line(ls.first()) {
            Some(d) => seq![d] + spec_parse_lines(ls.drop_first()),
            None => spec_parse_lines(ls.drop_first()),
        }
    }
}

/// The whole listing: the first line is a header and is skipped; every later
/// line that parses contributes one record, in order.
pub open spec fn spec_parse_devices(output: Seq<char>) -> Seq<AdbDeviceView> {
    spec_parse_lines(spec_lines(output).drop_first())
}

/// How many lines parse to a record.
pub open spec fn spec_parsable_count(ls: Seq<Seq<char>>) -> nat
    decreases ls.len(),
{
    if ls.len() == 0 {
        0
    } else {
        (if spec_parse_line(ls.first()) is Some {
            1nat
        } else {
            0nat
        }) + spec_parsable_count(ls.drop_first())
    }
}

pub proof fn lemma_parse_lines_snoc(ls: Seq<Seq<char>>, l: Seq<char>)
    ensures
        spec_parse_lines(ls.push(l)) == spec_parse_lines(ls) + (match spec_parse_line(l) {
            Some(d) => seq![d],
            None => Seq::<AdbDeviceView>::empty(),
        }),
    decreases ls.len(),
{
    if ls.len() == 0 {
        let single = ls.push(l);
        assert(single.first() == l);
        assert(single.drop_first() =~= Seq::<Seq<char>>::empty());
        assert(spec_parse_lines(single.drop_first()) == Seq::<AdbDeviceView>::empty());
        assert(spec_parse_lines(ls) == Seq::<AdbDeviceView>::empty());
        match spec_parse_line(l) {
            Some(d) => {
                assert(spec_parse_lines(single) == seq![d] + Seq::<AdbDeviceView>::empty());
                assert(seq![d] + Seq::<AdbDeviceView>::empty() =~= Seq::<AdbDeviceView>::empty()
                    + seq![d]);
            },
            None => {
                assert(spec_parse_lines(single) == Seq::<AdbDeviceView>::empty());
                assert(Seq::<AdbDeviceView>::empty() =~= Seq::<AdbDeviceView>::empty()
                    + Seq::<AdbDeviceView>::empty());
            },
        }
    } else {
        assert(ls.push(l).first() == ls.first());
        assert(ls.push(l).drop_first() =~= ls.drop_first().push(l));
        lemma_parse_lines_snoc(ls.drop_first(), l);
        let tail_new = match spec_parse_line(l) {
            Some(d) => seq![d],
            None => Seq::<AdbDeviceView>::empty(),
        };
        match spec_parse_line(ls.first()) {
            Some(d0) => {
                assert(seq![d0] + (spec_parse_lines(ls.drop_first()) + tail_new) =~= (seq![d0]
                    + spec_parse_lines(ls.drop_first())) + tail_new);
            },
            None => {},
        }
    }
}

/// Every line with at least two tokens yields a record, and only those do:
/// the record count of a listing equals the number of such lines after the
/// header.
pub proof fn lemma_parse_count(ls: Seq<Seq<char>>)
    ensures
        spec_parse_lines(ls).len() == spec_parsable_count(ls),
        forall|i: int| 0 <= i < ls.len() ==> (spec_parse_line(#[trigger] ls[i]) is Some
            <==> spec_tokens(ls[i]).len() >= 2),
    decreases ls.len(),
{
    if ls.len() > 0 {
        lemma_parse_count(ls.drop_first());
        assert forall|i: int| 1 <= i < ls.len() implies ls[i] == ls.drop_first()[i - 1] by {}
    }
}

fn parse_line(line: &str) -> (r: Option<AdbDevice>)
    ensures
        (r is Some) == (spec_parse_line(line@) is Some),
        r matches Some(d) ==> d@ == spec_parse_line(line@)->Some_0,
{
    let toks = split_ws(line);
    if toks.len() < 2 {
        return None;
    }
    let ghost tv = spec_tokens(line@);
    let serial = toks[0].clone();
    let state = toks[1].clone();
    let mut product: Option<String> = None;
    let mut model: Option<String> = None;
    let mut device: Option<String> = None;
    let mut transport_id: Option<String> = None;
    let mut k: usize = 2;
    while k < toks.len()
        invariant
            2 <= k <= toks.len(),
            toks@.len() == tv.len(),
            forall|i: int| 0 <= i < tv.len() ==> toks@[i]@ == tv[i],
            opt_string_view(product) == spec_field(tv.skip(2).take(k - 2), "product"@),
            opt_string_view(model) == spec_field(tv.skip(2).take(k - 2), "model"@),
            opt_string_view(device) == spec_field(tv.skip(2).take(k - 2), "device"@),
            opt_string_view(transport_id) == spec_field(tv.skip(2).take(k - 2), "transport_id"@),
        decreases toks.len() - k,
    {
        let tok = &toks[k];
        proof {
            reveal_strlit("product");
            reveal_strlit("model");
            reveal_strlit("device");
            reveal_strlit("transport_id");
            lemma_find_char_characterizes(tok@, ':');
            assert(tv.skip(2).take(k - 1).drop_last() =~= tv.skip(2).take(k - 2));
            assert(tv.skip(2).take(k - 1).last() == tv[k as int]);
        }
        match find_char(tok.as_str(), ':') {
            Some(ci) => {
                let n = tok.as_str().unicode_len();
                let key = tok.as_str().substring_char(0, ci);
                let value = String::from_str(tok.as_str().substring_char(ci + 1, n));
                proof {
                    assert(key@ =~= spec_key(tv[k as int]));
                    assert(value@ =~= spec_value(tv[k as int]));
                }
                if eq_str(key, "product") {
                    product = Some(value);
                } else if eq_str(key, "model") {
                    model = Some(value);
                } else if eq_str(key, "device") {
                    device = Some(value);
                } else if eq_str(key, "transport_id") {
                    transport_id = Some(value);
                }
            },
            None => {},
        }
        k += 1;
    }
    proof {
        assert(tv.skip(2).take(toks@.len() - 2) =~= tv.skip(2));
    }
    Some(AdbDevice { serial, state, product, model, device, transport_id })
}

impl Adb {
    /// Parses the output of the listing invocation: the header line is
    /// skipped, and each remaining line with at least two tokens becomes one
    /// record.  Never fails; unparseable lines are simply skipped.
    pub fn parse_devices(&self, output: &str) -> (r: Result<Vec<AdbDevice>, String>)
        ensures
            r is Ok,
            ({
                let devs = spec_parse_devices(output@);
                &&& r->Ok_0@.len() == devs.len()
                &&& forall|i: int| 0 <= i < devs.len() ==> r->Ok_0@[i]@ == devs[i]
            }),
            r->Ok_0@.len() == spec_parsable_count(spec_lines(output@).drop_first()),
    {
        let lines = split_lines(output);
        let ghost all = spec_lines(output@);
        let ghost tail = all.drop_first();
        let mut devs: Vec<AdbDevice> = Vec::new();
        let mut li: usize = 1;
        while li < lines.len()
            invariant
                1 <= li <= lines.len(),
                lines@.len() == all.len(),
                forall|i: int| 0 <= i < all.len() ==> lines@[i]@ == all[i],
                tail == all.drop_first(),
                ({
                    let partial = spec_parse_lines(tail.take(li - 1));
                    &&& devs@.len() == partial.len()
                    &&& forall|i: int| 0 <= i < partial.len() ==> devs@[i]@ == partial[i]
                }),
            decreases lines.len() - li,
        {
            proof {
                assert(tail.take(li as int) =~= tail.take(li - 1).push(tail[li - 1]));
                assert(tail[li - 1] == all[li as int]);
                lemma_parse_lines_snoc(tail.take(li - 1), tail[li - 1]);
            }
            match parse_line(lines[li].as_str()) {
                Some(d) => devs.push(d),
                None => {},
            }
            li += 1;
        }
        proof {
            assert(tail.take(lines@.len() - 1) =~= tail);
            lemma_parse_count(tail);
        }
        Ok(devs)
    }
}

/// The address following the first `src ` marker of a route line, running to
/// the next space or to the end of the line, trimmed.
pub open spec fn spec_src_ip(line: Seq<char>) -> Option<Seq<char>> {
    let f = spec_find(line, "src "@);
    if f == -1 {
        None
    } else {
        let after = line.skip(f + "src "@.len());
        let e = spec_find_char(after, ' ');
        if e == -1 {
            Some(spec_trim(after))
        } else {
            Some(spec_trim(after.take(e)))
        }
    }
}

/// A route line tagged as wireless, up to case.
pub open spec fn line_is_wifi(line: Seq<char>) -> bool {
    spec_contains_ci(line, "wlan"@) || spec_contains_ci(line, "wifi"@)
}

/// Loopback and link-local addresses, which never identify the device on the
/// network.
pub open spec fn is_local_ip(ip: Seq<char>) -> bool {
    spec_starts_with(ip, "127."@) || spec_starts_with(ip, "169.254."@)
}

/// The source address of the first wireless-tagged line that has one.
pub open spec fn first_wifi_ip(ls: Seq<Seq<char>>) -> Option<Seq<char>>
    decreases ls.len(),
{
    if ls.len() == 0 {
        None
    } else if line_is_wifi(ls.first()) && spec_src_ip(ls.first()) is Some {
        spec_src_ip(ls.first())
    } else {
        first_wifi_ip(ls.drop_first())
    }
}

/// The first non-local source address of any line, the fallback when no
/// wireless-tagged line matches.
pub open spec fn first_global_src_ip(ls: Seq<Seq<char>>) -> Option<Seq<char>>
    decreases ls.len(),
{
    if ls.len() == 0 {
        None
    } else if spec_src_ip(ls.first()) is Some && !is_local_ip(spec_src_ip(ls.first())->Some_0) {
        spec_src_ip(ls.first())
    } else {
        first_global_src_ip(ls.drop_first())
    }
}

/// The device address a route table yields: a wireless-tagged line's source
/// address when one exists, otherwise the first non-local source address.
pub open spec fn spec_route_ip(output: Seq<char>) -> Option<Seq<char>> {
    match first_wifi_ip(spec_lines(output)) {
        Some(ip) => Some(ip),
        None => first_global_src_ip(spec_lines(output)),
    }
}

pub proof fn lemma_first_wifi_ip_at(ls: Seq<Seq<char>>, i: int)
    requires
        0 <= i < ls.len(),
        line_is_wifi(ls[i]),
        spec_src_ip(ls[i]) is Some,
        forall|j: int| 0 <= j < i ==> !(line_is_wifi(#[trigger] ls[j]) && spec_src_ip(ls[j])
            is Some),
    ensures
        first_wifi_ip(ls) == spec_src_ip(ls[i]),
    decreases i,
{
    if i == 0 {
        assert(ls.first() == ls[0]);
    } else {
        assert(!(line_is_wifi(ls[0]) && spec_src_ip(ls[0]) is Some));
        let rest = ls.drop_first();
        assert forall|j: int| 0 <= j < i - 1 implies !(line_is_wifi(#[trigger] rest[j])
            && spec_src_ip(rest[j]) is Some) by {
            assert(rest[j] == ls[j + 1]);
        }
        assert(rest[i - 1] == ls[i]);
        lemma_first_wifi_ip_at(rest, i - 1);
    }
}

pub proof fn lemma_first_wifi_ip_none(ls: Seq<Seq<char>>)
    requires
        forall|j: int| 0 <= j < ls.len() ==> !(line_is_wifi(#[trigger] ls[j]) && spec_src_ip(
            ls[j],
        ) is Some),
    ensures
        first_wifi_ip(ls) is None,
    decreases ls.len(),
{
    if ls.len() > 0 {
        let rest = ls.drop_first();
        assert forall|j: int| 0 <= j < rest.len() implies !(line_is_wifi(#[trigger] rest[j])
            && spec_src_ip(rest[j]) is Some) by {
            assert(rest[j] == ls[j + 1]);
        }
        lemma_first_wifi_ip_none(rest);
    }
}

pub proof fn lemma_first_global_ip_at(ls: Seq<Seq<char>>, i: int)
    requires
        0 <= i < ls.len(),
        spec_src_ip(ls[i]) is Some,
        !is_local_ip(spec_src_ip(ls[i])->Some_0),
        forall|j: int| 0 <= j < i ==> !(spec_src_ip(#[trigger] ls[j]) is Some && !is_local_ip(
            spec_src_ip(ls[j])->Some_0,
        )),
    ensures
        first_global_src_ip(ls) == spec_src_ip(ls[i]),
    decreases i,
{
    if i == 0 {
        assert(ls.first() == ls[0]);
    } else {
        let rest = ls.drop_first();
        assert forall|j: int| 0 <= j < i - 1 implies !(spec_src_ip(#[trigger] rest[j]) is Some
            && !is_local_ip(spec_src_ip(rest[j])->Some_0)) by {
            assert(rest[j] == ls[j + 1]);
        }
        assert(rest[i - 1] == ls[i]);
        lemma_first_global_ip_at(rest, i - 1);
    }
}

pub proof fn lemma_first_global_ip_none(ls: Seq<Seq<char>>)
    requires
        forall|j: int| 0 <= j < ls.len() ==> !(spec_src_ip(#[trigger] ls[j]) is Some
            && !is_local_ip(spec_src_ip(ls[j])->Some_0)),
    ensures
        first_global_src_ip(ls) is None,
    decreases ls.len(),
{
    if ls.len() > 0 {
        let rest = ls.drop_first();
        assert forall|j: int| 0 <= j < rest.len() implies !(spec_src_ip(#[trigger] rest[j])
            is Some && !is_local_ip(spec_src_ip(rest[j])->Some_0)) by {
            assert(rest[j] == ls[j + 1]);
        }
        lemma_first_global_ip_none(rest);
    }
}

/// Extracts the source address of a route line, if any.
fn src_ip_of_line(line: &str) -> (r: Option<String>)
    ensures
        (r is Some) == (spec_src_ip(line@) is Some),
        r matches Some(ip) ==> ip@ == spec_src_ip(line@)->Some_0,
{
    proof {
        reveal_strlit("src ");
        lemma_find_characterizes(line@, "src "@);
    }
    match find_str(line, "src ") {
        None => None,
        Some(f) => {
            let n = line.unicode_len();
            let after = line.substring_char(f + 4, n);
            proof {
                assert(after@ =~= line@.skip(f + "src "@.len()));
                lemma_find_char_characterizes(after@, ' ');
            }
            let raw = match find_char(after, ' ') {
                None => after,
                Some(e) => {
                    let part = after.substring_char(0, e);
                    proof {
                        assert(part@ =~= after@.take(e as int));
                    }
                    part
                },
            };
            Some(String::from_str(trim_str(raw)))
        },
    }
}

impl Adb {
    /// Extracts the device's network address from the output of the
    /// route-table invocation: the source address of the first
    /// wireless-tagged route when one exists, otherwise the first non-local
    /// source address of any route; when neither exists the device is not on
    /// a wireless network and an advisory error is returned.
    pub fn get_device_ip(&self, route_output: &str) -> (r: Result<String, String>)
        ensures
            match spec_route_ip(route_output@) {
                Some(ip) => r matches Ok(s) && s@ == ip,
                None => r matches Err(e) && e@
                    == "Could not determine device IP address: make sure the device is connected to a WiFi network"@,
            },
    {
        let lines = split_lines(route_output);
        let ghost lv = spec_lines(route_output@);
        let mut i: usize = 0;
        while i < lines.len()
            invariant
                0 <= i <= lines.len(),
                lv == spec_lines(route_output@),
                lines@.len() == lv.len(),
                forall|j: int| 0 <= j < lv.len() ==> lines@[j]@ == lv[j],
                forall|j: int| 0 <= j < i ==> !(line_is_wifi(#[trigger] lv[j]) && spec_src_ip(
                    lv[j],
                ) is Some),
            decreases lines.len() - i,
        {
            let line = lines[i].as_str();
            if contains_ci(line, "wlan") || contains_ci(line, "wifi") {
                match src_ip_of_line(line) {
                    Some(ip) => {
                        proof {
                            lemma_first_wifi_ip_at(lv, i as int);
                        }
                        return Ok(ip);
                    },
                    None => {},
                }
            }
            i += 1;
        }
        proof {
            lemma_first_wifi_ip_none(lv);
        }
        let mut i: usize = 0;
        while i < lines.len()
            invariant
                0 <= i <= lines.len(),
                lv == spec_lines(route_output@),
                lines@.len() == lv.len(),
                first_wifi_ip(lv) is None,
                forall|j: int| 0 <= j < lv.len() ==> lines@[j]@ == lv[j],
                forall|j: int| 0 <= j < i ==> !(spec_src_ip(#[trigger] lv[j]) is Some
                    && !is_local_ip(spec_src_ip(lv[j])->Some_0)),
            decreases lines.len() - i,
        {
            let line = lines[i].as_str();
            match src_ip_of_line(line) {
                Some(ip) => {
                    if !starts_with_str(ip.as_str(), "127.") && !starts_with_str(
                        ip.as_str(),
                        "169.254.",
                    ) {
                        proof {
                            lemma_first_global_ip_at(lv, i as int);
                        }
                        return Ok(ip);
                    }
                },
                None => {},
            }
            i += 1;
        }
        proof {
            lemma_first_global_ip_none(lv);
        }
        Err(
            String::from_str(
                "Could not determine device IP address: make sure the device is connected to a WiFi network",
            ),
        )
    }
}

/// Turns the raw outcome of running an invocation (exit success, captured
/// standard output and standard error) into the tool's textual result or an
/// error carrying the tool's own words, trimmed.
pub fn interpret_output(success: bool, stdout: String, stderr: &str) -> (r: Result<String, String>)
    ensures
        success ==> (r matches Ok(out) && out@ == stdout@),
        !success ==> (r matches Err(e) && e@ == "ADB command failed: "@ + spec_trim(stderr@)),
{
    if success {
        Ok(stdout)
    } else {
        Err(concat_str("ADB command failed: ", trim_str(stderr)))
    }
}

/// A property value as reported by the shell, with surrounding whitespace
/// removed.
pub fn prop_value(raw: &str) -> (r: String)
    ensures
        r@ == spec_trim(raw@),
{
    String::from_str(trim_str(raw))
}

impl Adb {
    /// The availability check: any successful version query means the tool
    /// is usable; a failure is reported with its cause.
    pub fn check_availability(&self, version_result: Result<String, String>) -> (r: Result<
        bool,
        String,
    >)
        ensures
            version_result matches Ok(_) ==> (r matches Ok(b) && b == true),
            version_result matches Err(e) ==> (r matches Err(m) && m@ == "ADB not available: "@
                + e@),
    {
        match version_result {
            Ok(_) => Ok(true),
            Err(e) => Err(concat_str("ADB not available: ", e.as_str())),
        }
    }
}

} // verus!
