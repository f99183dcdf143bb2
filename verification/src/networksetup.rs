//! The `networksetup` tool of macOS: what its answers say, and the commands
//! that set, save and restore proxies and name servers.
use crate::error::{AtrError, AtrResult, ErrorCode};
use crate::number;
use crate::number::{decimal_string, parse_decimal};
use crate::sorted;
use crate::sorted::{sort_dedup, string_precedes};
use crate::text;
use crate::text::{
    begins, chars_of, clone_strings, holds_text, is_text, lines_of, split_first, string_of,
    to_lower, trim_string, trimmed, without_prefix,
};
use vstd::prelude::*;
use vstd::string::*;

verus! {

// ---------------------------------------------------------------------------
// Answers
// ---------------------------------------------------------------------------

/// What is made of a run of the tool: its output, or its complaint.
pub fn networksetup_outcome(success: bool, stdout: &str, stderr: &str) -> (r: AtrResult<String>)
    ensures
        match r {
            Ok(output) => success && output@ == stdout@,
            Err(e) => !success && e.says(
                ErrorCode::NetworkFailed,
                if text::trim(stderr@).len() == 0 {
                    "networksetup failed"@
                } else {
                    text::trim(stderr@)
                },
            ),
        },
{
    if success {
        return Ok(stdout.to_owned());
    }
    let complaint = trim_string(stderr);
    if complaint.as_str().unicode_len() == 0 {
        Err(AtrError::NetworkFailed("networksetup failed".to_owned()))
    } else {
        Err(AtrError::NetworkFailed(complaint))
    }
}

/// What is made of a run of another tool that is only to succeed. Its
/// complaint is on the error output, or on the ordinary one.
pub fn command_outcome(success: bool, stdout: &str, stderr: &str) -> (r: AtrResult<()>)
    ensures
        match r {
            Ok(_) => success,
            Err(e) => !success && e.says(
                ErrorCode::NetworkFailed,
                text::trim(
                    if stderr@.len() == 0 {
                        stdout@
                    } else {
                        stderr@
                    },
                ),
            ),
        },
{
    if success {
        Ok(())
    } else if stderr.unicode_len() == 0 {
        Err(AtrError::NetworkFailed(trim_string(stdout)))
    } else {
        Err(AtrError::NetworkFailed(trim_string(stderr)))
    }
}

/// The texts that a rule makes of some lines, without those of which it makes
/// none.
pub open spec fn picked(
    lines: Seq<Seq<char>>,
    rule: spec_fn(Seq<char>) -> Option<Seq<char>>,
) -> Seq<Seq<char>>
    decreases lines.len(),
{
    if lines.len() == 0 {
        Seq::empty()
    } else {
        let head = picked(lines.drop_last(), rule);
        match rule(lines.last()) {
            Some(t) => head.push(t),
            None => head,
        }
    }
}

/// The service that a line of the service list names. A star marks a disabled
/// one; the first line only explains that.
pub open spec fn service_of(line: Seq<char>) -> Option<Seq<char>> {
    let t = text::trim(line);
    if t.len() == 0 || text::starts_with(t, "An asterisk"@) {
        None
    } else {
        match text::strip_prefix(t, "*"@) {
            Some(rest) => Some(text::trim(rest)),
            None => Some(t),
        }
    }
}

/// The services in a service list.
pub open spec fn services_in(output: Seq<char>) -> Seq<Seq<char>> {
    picked(text::lines(output), |line: Seq<char>| service_of(line))
}

fn pick_service(line: &Vec<char>) -> (r: Option<String>)
    ensures
        text::text_of(r) == service_of(line@),
{
    let t = trimmed(line.as_slice());
    if t.len() == 0 || begins(t, "An asterisk") {
        return None;
    }
    match without_prefix(t, "*") {
        Some(rest) => Some(string_of(trimmed(rest))),
        None => Some(string_of(t)),
    }
}

/// The services in a service list.
pub fn list_network_services(output: &str) -> (r: Vec<String>)
    ensures
        text::strings(r@) == services_in(output@),
{
    let ghost rule = |line: Seq<char>| service_of(line);
    let cs = chars_of(output);
    let lines = lines_of(cs.as_slice());
    let ghost all = text::texts(lines@);
    let mut r: Vec<String> = Vec::new();
    assert(text::strings(r@) =~= picked(all.take(0), rule));
    for i in 0..lines.len()
        invariant
            all == text::texts(lines@),
            rule == (|line: Seq<char>| service_of(line)),
            text::strings(r@) == picked(all.take(i as int), rule),
    {
        let ghost before = text::strings(r@);
        let ghost one = all.take(i + 1);
        assert(one.drop_last() =~= all.take(i as int));
        assert(one.last() == lines@[i as int]@);
        match pick_service(&lines[i]) {
            Some(t) => {
                r.push(t);
                assert(text::strings(r@) =~= before.push(t@));
            },
            None => {},
        }
    }
    assert(all.take(lines.len() as int) =~= all);
    r
}

/// Whether a text holds another one, whatever its case.
pub open spec fn mentions(t: Seq<char>, word: Seq<char>) -> bool {
    text::contains_text(text::lower(t), word)
}

/// The entry that a line of a list is. That there is none is not an entry.
pub open spec fn entry_of(line: Seq<char>) -> Option<Seq<char>> {
    let t = text::trim(line);
    if t.len() == 0 || mentions(t, "there aren't any"@) || mentions(t, "aren't any"@) || mentions(
        t,
        "not configured"@,
    ) {
        None
    } else {
        Some(t)
    }
}

/// The domain that a line of the bypass list is.
pub open spec fn bypass_of(line: Seq<char>) -> Option<Seq<char>> {
    let t = text::trim(line);
    if t.len() == 0 || mentions(t, "there aren"@) || mentions(t, "bypass domain"@) {
        None
    } else {
        Some(t)
    }
}

fn pick_entry(line: &Vec<char>) -> (r: Option<String>)
    ensures
        text::text_of(r) == entry_of(line@),
{
    let t = trimmed(line.as_slice());
    if t.len() == 0 {
        return None;
    }
    let low = to_lower(t);
    if holds_text(low.as_slice(), "there aren't any") || holds_text(low.as_slice(), "aren't any")
        || holds_text(low.as_slice(), "not configured") {
        None
    } else {
        Some(string_of(t))
    }
}

fn pick_bypass(line: &Vec<char>) -> (r: Option<String>)
    ensures
        text::text_of(r) == bypass_of(line@),
{
    let t = trimmed(line.as_slice());
    if t.len() == 0 {
        return None;
    }
    let low = to_lower(t);
    if holds_text(low.as_slice(), "there aren") || holds_text(low.as_slice(), "bypass domain") {
        None
    } else {
        Some(string_of(t))
    }
}

/// The entries of a list of name servers or search domains.
pub fn read_networksetup_list(output: &str) -> (r: Vec<String>)
    ensures
        text::strings(r@) == picked(text::lines(output@), |line: Seq<char>| entry_of(line)),
{
    let ghost rule = |line: Seq<char>| entry_of(line);
    let cs = chars_of(output);
    let lines = lines_of(cs.as_slice());
    let ghost all = text::texts(lines@);
    let mut r: Vec<String> = Vec::new();
    assert(text::strings(r@) =~= picked(all.take(0), rule));
    for i in 0..lines.len()
        invariant
            all == text::texts(lines@),
            rule == (|line: Seq<char>| entry_of(line)),
            text::strings(r@) == picked(all.take(i as int), rule),
    {
        let ghost before = text::strings(r@);
        let ghost one = all.take(i + 1);
        assert(one.drop_last() =~= all.take(i as int));
        assert(one.last() == lines@[i as int]@);
        match pick_entry(&lines[i]) {
            Some(t) => {
                r.push(t);
                assert(text::strings(r@) =~= before.push(t@));
            },
            None => {},
        }
    }
    assert(all.take(lines.len() as int) =~= all);
    r
}

/// The domains of a bypass list.
pub fn read_bypass_domains(output: &str) -> (r: Vec<String>)
    ensures
        text::strings(r@) == picked(text::lines(output@), |line: Seq<char>| bypass_of(line)),
{
    let ghost rule = |line: Seq<char>| bypass_of(line);
    let cs = chars_of(output);
    let lines = lines_of(cs.as_slice());
    let ghost all = text::texts(lines@);
    let mut r: Vec<String> = Vec::new();
    assert(text::strings(r@) =~= picked(all.take(0), rule));
    for i in 0..lines.len()
        invariant
            all == text::texts(lines@),
            rule == (|line: Seq<char>| bypass_of(line)),
            text::strings(r@) == picked(all.take(i as int), rule),
    {
        let ghost before = text::strings(r@);
        let ghost one = all.take(i + 1);
        assert(one.drop_last() =~= all.take(i as int));
        assert(one.last() == lines@[i as int]@);
        match pick_bypass(&lines[i]) {
            Some(t) => {
                r.push(t);
                assert(text::strings(r@) =~= before.push(t@));
            },
            None => {},
        }
    }
    assert(all.take(lines.len() as int) =~= all);
    r
}

// ---------------------------------------------------------------------------
// Keys and values
// ---------------------------------------------------------------------------

/// The keys and values of some lines, in order. A line without a colon has
/// neither.
pub open spec fn pairs_in(lines: Seq<Seq<char>>) -> Seq<(Seq<char>, Seq<char>)>
    decreases lines.len(),
{
    if lines.len() == 0 {
        Seq::empty()
    } else {
        let head = pairs_in(lines.drop_last());
        match text::split_at_first(lines.last(), ':') {
            Some((key, value)) => head.push((text::trim(key), text::trim(value))),
            None => head,
        }
    }
}

/// The value of a key. The last one counts.
pub open spec fn value_of(pairs: Seq<(Seq<char>, Seq<char>)>, key: Seq<char>) -> Option<Seq<char>>
    decreases pairs.len(),
{
    if pairs.len() == 0 {
        None
    } else if pairs.last().0 == key {
        Some(pairs.last().1)
    } else {
        value_of(pairs.drop_last(), key)
    }
}

/// The key that precedes all others.
pub open spec fn least_key(pairs: Seq<(Seq<char>, Seq<char>)>) -> Seq<char>
    decreases pairs.len(),
{
    if pairs.len() <= 1 {
        pairs[0].0
    } else {
        let m = least_key(pairs.drop_last());
        if sorted::text_lt(pairs.last().0, m) {
            pairs.last().0
        } else {
            m
        }
    }
}

/// The value of the key that precedes all others.
pub open spec fn first_value(pairs: Seq<(Seq<char>, Seq<char>)>) -> Option<Seq<char>> {
    if pairs.len() == 0 {
        None
    } else {
        value_of(pairs, least_key(pairs))
    }
}

/// No key precedes the least one, and it has a value.
pub proof fn the_least_key_is_least(pairs: Seq<(Seq<char>, Seq<char>)>, i: int)
    requires
        0 <= i < pairs.len(),
    ensures
        !sorted::text_lt(pairs[i].0, least_key(pairs)),
        first_value(pairs) is Some,
    decreases pairs.len(),
{
    let fewer = pairs.drop_last();
    if pairs.len() == 1 {
        sorted::lemma_text_lt_total(pairs[0].0, pairs[0].0);
    } else {
        let m = least_key(fewer);
        let x = pairs.last().0;
        sorted::lemma_text_lt_total(x, m);
        sorted::lemma_text_lt_total(x, x);
        if i < fewer.len() {
            the_least_key_is_least(fewer, i);
            let y = pairs[i].0;
            assert(fewer[i].0 == y);
            if sorted::text_lt(x, m) && sorted::text_lt(y, x) {
                sorted::lemma_text_lt_transitive(y, x, m);
            }
        } else {
            the_least_key_is_least(fewer, 0);
        }
        if !sorted::text_lt(x, m) {
            assert(value_of(fewer, m) is Some);
        }
    }
}

/// The keys and values of an answer.
#[derive(Debug)]
pub struct KeyValues {
    pub pairs: Vec<(String, String)>,
}

impl View for KeyValues {
    type V = Seq<(Seq<char>, Seq<char>)>;

    open spec fn view(&self) -> Seq<(Seq<char>, Seq<char>)> {
        Seq::new(self.pairs@.len(), |i: int| (self.pairs@[i].0@, self.pairs@[i].1@))
    }
}

/// The keys and values of an answer.
pub fn parse_key_value_output(output: &str) -> (r: KeyValues)
    ensures
        r@ == pairs_in(text::lines(output@)),
{
    let cs = chars_of(output);
    let lines = lines_of(cs.as_slice());
    let ghost all = text::texts(lines@);
    let mut r = KeyValues { pairs: Vec::new() };
    assert(r@ =~= pairs_in(all.take(0)));
    for i in 0..lines.len()
        invariant
            all == text::texts(lines@),
            r@ == pairs_in(all.take(i as int)),
    {
        let ghost before = r@;
        let ghost one = all.take(i + 1);
        assert(one.drop_last() =~= all.take(i as int));
        assert(one.last() == lines@[i as int]@);
        match split_first(lines[i].as_slice(), ':') {
            Some((key, value)) => {
                r.pairs.push((string_of(trimmed(key)), string_of(trimmed(value))));
                assert(r@ =~= before.push((text::trim(key@), text::trim(value@))));
            },
            None => {},
        }
    }
    assert(all.take(lines.len() as int) =~= all);
    r
}

impl KeyValues {
    /// The value of a key.
    pub fn get(&self, key: &str) -> (r: Option<String>)
        ensures
            text::text_of(r) == value_of(self@, key@),
    {
        let mut i: usize = self.pairs.len();
        assert(self@.take(i as int) =~= self@);
        while i > 0
            invariant
                i <= self.pairs.len(),
                self@.len() == self.pairs@.len(),
                value_of(self@, key@) == value_of(self@.take(i as int), key@),
            decreases i,
        {
            let ghost now = self@.take(i as int);
            assert(now.drop_last() =~= self@.take(i - 1));
            i = i - 1;
            let pair = &self.pairs[i];
            assert(now.last() == (pair.0@, pair.1@));
            if is_text(chars_of(pair.0.as_str()).as_slice(), key) {
                return Some(pair.1.clone());
            }
        }
        None
    }

    /// The value of the key that precedes all others.
    pub fn first(&self) -> (r: Option<String>)
        ensures
            text::text_of(r) == first_value(self@),
    {
        if self.pairs.len() == 0 {
            return None;
        }
        let mut least: usize = 0;
        let mut i: usize = 1;
        while i < self.pairs.len()
            invariant
                1 <= i <= self.pairs.len(),
                least < i,
                self@.len() == self.pairs@.len(),
                self.pairs@[least as int].0@ == least_key(self@.take(i as int)),
            decreases self.pairs.len() - i,
        {
            let ghost now = self@.take(i + 1);
            assert(now.drop_last() =~= self@.take(i as int));
            assert(now.last().0 == self.pairs@[i as int].0@);
            if string_precedes(&self.pairs[i].0, &self.pairs[least].0) {
                least = i;
            }
            i = i + 1;
        }
        assert(self@.take(i as int) =~= self@);
        self.get(self.pairs[least].0.as_str())
    }
}

/// Whether a value is one of the words for yes.
pub open spec fn means_yes(value: Seq<char>) -> bool {
    let v = text::lower(text::trim(value));
    v == "yes"@ || v == "on"@ || v == "1"@ || v == "true"@
}

/// Whether a value is one of the words for yes. No value means no.
pub fn bool_value(value: &Option<String>) -> (r: bool)
    ensures
        r == (*value is Some && means_yes(value->0@)),
{
    match value {
        Some(value) => {
            let cs = chars_of(value.as_str());
            let low = to_lower(trimmed(cs.as_slice()));
            let v = low.as_slice();
            is_text(v, "yes") || is_text(v, "on") || is_text(v, "1") || is_text(v, "true")
        },
        None => false,
    }
}

/// A value that says something.
pub open spec fn meaningful(value: Option<Seq<char>>) -> Option<Seq<char>> {
    match value {
        Some(v) => {
            let t = text::trim(v);
            if t.len() == 0 || t == "(null)"@ {
                None
            } else {
                Some(t)
            }
        },
        None => None,
    }
}

/// A value that says something.
pub fn normalized_string(value: &Option<String>) -> (r: Option<String>)
    ensures
        text::text_of(r) == meaningful(text::text_of(*value)),
{
    match value {
        Some(value) => {
            let cs = chars_of(value.as_str());
            let t = trimmed(cs.as_slice());
            if t.len() == 0 || is_text(t, "(null)") {
                None
            } else {
                Some(string_of(t))
            }
        },
        None => None,
    }
}

/// A proxy of a service.
#[derive(Debug, Clone)]
pub struct ProxySetting {
    pub enabled: bool,
    pub server: Option<String>,
    pub port: Option<u16>,
}

/// The address of a proxy script.
#[derive(Debug, Clone)]
pub struct AutoProxyUrl {
    pub enabled: bool,
    pub url: Option<String>,
}

/// Whether the value of a key means yes.
pub open spec fn yes_at(pairs: Seq<(Seq<char>, Seq<char>)>, key: Seq<char>) -> bool {
    value_of(pairs, key) is Some && means_yes(value_of(pairs, key)->0)
}

/// The port that a value is.
pub open spec fn port_at(pairs: Seq<(Seq<char>, Seq<char>)>) -> Option<int> {
    match value_of(pairs, "Port"@) {
        Some(v) => number::parse_unsigned(v, 65535),
        None => None,
    }
}

/// Whether a line of an answer, and no later one, is about a key.
pub open spec fn is_last_of(lines: Seq<Seq<char>>, i: int, key: Seq<char>) -> bool {
    &&& 0 <= i < lines.len()
    &&& forall|k: int|
        i < k < lines.len() ==> match text::split_at_first(#[trigger] lines[k], ':') {
            Some((name, _)) => text::trim(name) != key,
            None => true,
        }
}

/// Whether the last line about the port says, behind some white space, this
/// one.
pub open spec fn port_line(lines: Seq<Seq<char>>, i: int, pad: Seq<char>, n: u16) -> bool {
    &&& is_last_of(lines, i, "Port"@)
    &&& lines[i] == "Port"@ + seq![':'] + (pad + number::decimal(n as nat))
    &&& forall|k: int| 0 <= k < pad.len() ==> text::is_white(#[trigger] pad[k])
}

/// The proxy that an answer describes.
pub fn read_proxy_setting(output: &str) -> (r: ProxySetting)
    ensures
        ({
            let pairs = pairs_in(text::lines(output@));
            &&& r.enabled == yes_at(pairs, "Enabled"@)
            &&& text::text_of(r.server) == meaningful(value_of(pairs, "Server"@))
            &&& match r.port {
                Some(port) => port_at(pairs) == Some(port as int),
                None => port_at(pairs) is None,
            }
        }),
        forall|i: int, pad: Seq<char>, n: u16|
            #![trigger port_line(text::lines(output@), i, pad, n)]
            port_line(text::lines(output@), i, pad, n) ==> r.port == Some(n),
{
    proof {
        assert forall|i: int, pad: Seq<char>, n: u16|
            #![trigger port_line(text::lines(output@), i, pad, n)]
            port_line(text::lines(output@), i, pad, n) implies port_at(
            pairs_in(text::lines(output@)),
        ) == Some(n as int) by {
            lemma_port_line(text::lines(output@), i, pad, n);
        }
    }
    let values = parse_key_value_output(output);
    let port = match values.get("Port") {
        Some(value) => match parse_decimal(chars_of(value.as_str()).as_slice(), 65535) {
            Some(port) => Some(port as u16),
            None => None,
        },
        None => None,
    };
    ProxySetting {
        enabled: bool_value(&values.get("Enabled")),
        server: normalized_string(&values.get("Server")),
        port,
    }
}

/// The proxy script that an answer describes.
pub fn read_auto_proxy_url(output: &str) -> (r: AutoProxyUrl)
    ensures
        ({
            let pairs = pairs_in(text::lines(output@));
            &&& r.enabled == yes_at(pairs, "Enabled"@)
            &&& text::text_of(r.url) == meaningful(value_of(pairs, "URL"@))
        }),
{
    let values = parse_key_value_output(output);
    AutoProxyUrl {
        enabled: bool_value(&values.get("Enabled")),
        url: normalized_string(&values.get("URL")),
    }
}

/// Whether an answer says yes: by its first value, or somewhere in an answer
/// without values.
pub open spec fn says_yes(output: Seq<char>) -> bool {
    match first_value(pairs_in(text::lines(output))) {
        Some(v) => means_yes(v),
        None => mentions(output, "yes"@),
    }
}

/// Whether an answer says yes. No answer means no.
pub fn read_bool(output: &Option<String>) -> (r: bool)
    ensures
        r == (*output is Some && says_yes(output->0@)),
{
    match output {
        Some(output) => {
            let values = parse_key_value_output(output.as_str());
            let first = values.first();
            if first.is_some() {
                bool_value(&first)
            } else {
                let low = to_lower(chars_of(output.as_str()).as_slice());
                holds_text(low.as_slice(), "yes")
            }
        },
        None => false,
    }
}

// ---------------------------------------------------------------------------
// Snapshots
// ---------------------------------------------------------------------------

/// The proxies of a service as they were.
#[derive(Debug, Clone)]
pub struct SystemProxyServiceSnapshot {
    pub name: String,
    pub web_proxy: ProxySetting,
    pub secure_web_proxy: ProxySetting,
    pub socks_proxy: ProxySetting,
    pub proxy_auto_discovery_enabled: bool,
    pub auto_proxy_url: AutoProxyUrl,
    pub bypass_domains: Vec<String>,
}

/// The proxies of all services as they were.
#[derive(Debug, Clone)]
pub struct SystemProxySnapshot {
    pub saved_at_unix_secs: u64,
    pub services: Vec<SystemProxyServiceSnapshot>,
}

/// The name servers of a service as they were.
#[derive(Debug, Clone)]
pub struct TunNetworkServiceSnapshot {
    pub name: String,
    pub dns_servers: Vec<String>,
    pub search_domains: Vec<String>,
}

/// The name servers of all services as they were.
#[derive(Debug, Clone)]
pub struct TunNetworkSnapshot {
    pub saved_at_unix_secs: u64,
    pub services: Vec<TunNetworkServiceSnapshot>,
}

/// What the tool answered about the proxies of a service. The question about
/// discovery may have failed.
#[derive(Debug)]
pub struct ServiceAnswers {
    pub web_proxy: String,
    pub secure_web_proxy: String,
    pub socks_proxy: String,
    pub auto_discovery: Option<String>,
    pub auto_proxy_url: String,
    pub bypass_domains: String,
}

/// Whether a proxy is what an answer describes.
pub open spec fn describes_proxy(output: Seq<char>, p: ProxySetting) -> bool {
    let pairs = pairs_in(text::lines(output));
    &&& p.enabled == yes_at(pairs, "Enabled"@)
    &&& text::text_of(p.server) == meaningful(value_of(pairs, "Server"@))
    &&& match p.port {
        Some(port) => port_at(pairs) == Some(port as int),
        None => port_at(pairs) is None,
    }
}

/// The proxies of a service, from what the tool answered about them.
pub fn make_service_snapshot(service: &str, answers: &ServiceAnswers) -> (r:
    SystemProxyServiceSnapshot)
    ensures
        r.name@ == service@,
        describes_proxy(answers.web_proxy@, r.web_proxy),
        describes_proxy(answers.secure_web_proxy@, r.secure_web_proxy),
        describes_proxy(answers.socks_proxy@, r.socks_proxy),
        r.proxy_auto_discovery_enabled == (answers.auto_discovery is Some && says_yes(
            answers.auto_discovery->0@,
        )),
        r.auto_proxy_url.enabled == yes_at(
            pairs_in(text::lines(answers.auto_proxy_url@)),
            "Enabled"@,
        ),
        text::text_of(r.auto_proxy_url.url) == meaningful(
            value_of(pairs_in(text::lines(answers.auto_proxy_url@)), "URL"@),
        ),
        text::strings(r.bypass_domains@) == picked(
            text::lines(answers.bypass_domains@),
            |line: Seq<char>| bypass_of(line),
        ),
{
    SystemProxyServiceSnapshot {
        name: service.to_owned(),
        web_proxy: read_proxy_setting(answers.web_proxy.as_str()),
        secure_web_proxy: read_proxy_setting(answers.secure_web_proxy.as_str()),
        socks_proxy: read_proxy_setting(answers.socks_proxy.as_str()),
        proxy_auto_discovery_enabled: read_bool(&answers.auto_discovery),
        auto_proxy_url: read_auto_proxy_url(answers.auto_proxy_url.as_str()),
        bypass_domains: read_bypass_domains(answers.bypass_domains.as_str()),
    }
}

/// The name servers of a service, from what the tool answered about them.
pub fn make_network_snapshot(service: &str, dns_servers: &str, search_domains: &str) -> (r:
    TunNetworkServiceSnapshot)
    ensures
        r.name@ == service@,
        text::strings(r.dns_servers@) == picked(
            text::lines(dns_servers@),
            |line: Seq<char>| entry_of(line),
        ),
        text::strings(r.search_domains@) == picked(
            text::lines(search_domains@),
            |line: Seq<char>| entry_of(line),
        ),
{
    TunNetworkServiceSnapshot {
        name: service.to_owned(),
        dns_servers: read_networksetup_list(dns_servers),
        search_domains: read_networksetup_list(search_domains),
    }
}

// ---------------------------------------------------------------------------
// Commands
// ---------------------------------------------------------------------------

/// The argument lists of some commands.
pub open spec fn commands(v: Seq<Vec<String>>) -> Seq<Seq<Seq<char>>> {
    Seq::new(v.len(), |i: int| text::strings(v[i]@))
}

/// The word for a switch.
pub open spec fn switch(on: bool) -> Seq<char> {
    if on {
        "on"@
    } else {
        "off"@
    }
}

fn switch_text(on: bool) -> (r: String)
    ensures
        r@ == switch(on),
{
    if on {
        "on".to_owned()
    } else {
        "off".to_owned()
    }
}

fn push_command(plan: &mut Vec<Vec<String>>, args: Vec<String>)
    ensures
        commands(final(plan)@) == commands(old(plan)@).push(text::strings(args@)),
{
    let ghost before = commands(plan@);
    plan.push(args);
    assert(commands(plan@) =~= before.push(text::strings(args@)));
}

fn command3(a: &str, b: &str, c: &str) -> (r: Vec<String>)
    ensures
        text::strings(r@) == seq![a@, b@, c@],
{
    let r: Vec<String> = vec![a.to_owned(), b.to_owned(), c.to_owned()];
    assert(text::strings(r@) =~= seq![a@, b@, c@]);
    r
}

fn command5(a: &str, b: &str, c: &str, d: &str, e: &str) -> (r: Vec<String>)
    ensures
        text::strings(r@) == seq![a@, b@, c@, d@, e@],
{
    let r: Vec<String> = vec![a.to_owned(), b.to_owned(), c.to_owned(), d.to_owned(), e.to_owned()];
    assert(text::strings(r@) =~= seq![a@, b@, c@, d@, e@]);
    r
}

/// A command that sets a list of a service. `Empty` clears it.
pub open spec fn list_command(
    option: Seq<char>,
    service: Seq<char>,
    items: Seq<Seq<char>>,
) -> Seq<Seq<char>> {
    if items.len() == 0 {
        seq![option, service, "Empty"@]
    } else {
        seq![option, service] + items
    }
}

fn make_list_command(option: &str, service: &str, items: &Vec<String>) -> (r: Vec<String>)
    ensures
        text::strings(r@) == list_command(option@, service@, text::strings(items@)),
{
    if items.len() == 0 {
        return command3(option, service, "Empty");
    }
    let mut r: Vec<String> = vec![option.to_owned(), service.to_owned()];
    let mut rest = clone_strings(items);
    let ghost tail = text::strings(rest@);
    r.append(&mut rest);
    assert(text::strings(r@) =~= seq![option@, service@] + tail);
    r
}

/// An endpoint of a local proxy.
#[derive(Debug, Clone)]
pub struct ProxyEndpoint {
    pub host: String,
    pub port: u16,
}

/// Whether a host is this machine.
pub open spec fn is_local_host(host: Seq<char>) -> bool {
    host == "127.0.0.1"@ || host == "::1"@ || host == "localhost"@
}

/// Only a local proxy with a port can be set for the system.
pub fn validate_proxy_endpoint(endpoint: &ProxyEndpoint) -> (r: AtrResult<()>)
    ensures
        match r {
            Ok(_) => is_local_host(endpoint.host@) && endpoint.port != 0,
            Err(e) => if !is_local_host(endpoint.host@) {
                e.says(ErrorCode::InvalidArgument, "system proxy endpoint must be loopback"@)
            } else {
                endpoint.port == 0 && e.says(
                    ErrorCode::InvalidArgument,
                    "system proxy port must be non-zero"@,
                )
            },
        },
        r is Ok <==> endpoint.port != 0 && (endpoint.host@ == "127.0.0.1"@ || endpoint.host@
            == "::1"@ || endpoint.host@ == "localhost"@),
{
    let cs = chars_of(endpoint.host.as_str());
    let host = cs.as_slice();
    if !is_text(host, "127.0.0.1") && !is_text(host, "::1") && !is_text(host, "localhost") {
        return Err(
            AtrError::InvalidArgument("system proxy endpoint must be loopback".to_owned()),
        );
    }
    if endpoint.port == 0 {
        return Err(AtrError::InvalidArgument("system proxy port must be non-zero".to_owned()));
    }
    Ok(())
}

/// Proxies can only be set where there are services.
pub fn require_services(services: &Vec<String>) -> (r: AtrResult<()>)
    ensures
        match r {
            Ok(_) => services@.len() > 0,
            Err(e) => services@.len() == 0 && e.says(
                ErrorCode::NotFound,
                "no network services found"@,
            ),
        },
{
    if services.len() == 0 {
        Err(AtrError::NotFound("no network services found".to_owned()))
    } else {
        Ok(())
    }
}

/// The hosts that never go through a proxy.
pub open spec fn fixed_exceptions() -> Seq<Seq<char>> {
    seq!["localhost"@, "127.0.0.1"@, "::1"@, "*.local"@, "169.254/16"@]
}

/// A text that is not blank, trimmed.
pub open spec fn unless_blank(t: Seq<char>) -> Option<Seq<char>> {
    if text::trim(t).len() == 0 {
        None
    } else {
        Some(text::trim(t))
    }
}

/// The bypass domains of some services.
pub open spec fn saved_exceptions(services: Seq<SystemProxyServiceSnapshot>) -> Seq<Seq<char>>
    decreases services.len(),
{
    if services.len() == 0 {
        Seq::empty()
    } else {
        saved_exceptions(services.drop_last()) + picked(
            text::strings(services.last().bypass_domains@),
            |t: Seq<char>| unless_blank(t),
        )
    }
}

/// Everything that is not to go through the proxy.
pub open spec fn all_exceptions(
    server_host: Seq<char>,
    services: Seq<SystemProxyServiceSnapshot>,
) -> Seq<Seq<char>> {
    fixed_exceptions() + picked(seq![server_host], |t: Seq<char>| unless_blank(t))
        + saved_exceptions(services)
}

fn push_unless_blank(v: &mut Vec<String>, t: &str)
    ensures
        text::strings(final(v)@) == match unless_blank(t@) {
            Some(x) => text::strings(old(v)@).push(x),
            None => text::strings(old(v)@),
        },
{
    let ghost before = text::strings(v@);
    let cs = chars_of(t);
    let x = trimmed(cs.as_slice());
    if x.len() > 0 {
        v.push(string_of(x));
        assert(text::strings(v@) =~= before.push(x@));
    }
}

/// Everything that is not to go through the proxy, sorted, each once: this
/// machine and its network, the server, and what was set before.
pub fn merged_exceptions(server_host: &str, snapshot: &SystemProxySnapshot) -> (r: Vec<String>)
    ensures
        sorted::sorted_set_of(
            text::strings(r@),
            all_exceptions(server_host@, snapshot.services@),
        ),
{
    let ghost rule = |t: Seq<char>| unless_blank(t);
    let mut v: Vec<String> = vec![
        "localhost".to_owned(),
        "127.0.0.1".to_owned(),
        "::1".to_owned(),
        "*.local".to_owned(),
        "169.254/16".to_owned(),
    ];
    assert(text::strings(v@) =~= fixed_exceptions());
    push_unless_blank(&mut v, server_host);
    proof {
        let one = seq![server_host@];
        assert(one.drop_last() =~= Seq::<Seq<char>>::empty());
        assert(one.last() == server_host@);
        assert(picked(one.drop_last(), rule) =~= Seq::<Seq<char>>::empty());
        assert(text::strings(v@) =~= fixed_exceptions() + picked(one, rule));
    }
    let ghost head = text::strings(v@);
    let ghost services = snapshot.services@;
    assert(services.take(0) =~= Seq::<SystemProxyServiceSnapshot>::empty());
    assert(head + saved_exceptions(services.take(0)) =~= head);
    for i in 0..snapshot.services.len()
        invariant
            rule == (|t: Seq<char>| unless_blank(t)),
            services == snapshot.services@,
            text::strings(v@) == head + saved_exceptions(services.take(i as int)),
    {
        let ghost upto = services.take(i + 1);
        let ghost start = text::strings(v@);
        let domains = &snapshot.services[i].bypass_domains;
        let ghost all = text::strings(domains@);
        assert(upto.drop_last() =~= services.take(i as int));
        assert(upto.last() == services[i as int]);
        assert(all.take(0) =~= Seq::<Seq<char>>::empty());
        assert(start + picked(all.take(0), rule) =~= start);
        for j in 0..domains.len()
            invariant
                rule == (|t: Seq<char>| unless_blank(t)),
                all == text::strings(domains@),
                text::strings(v@) == start + picked(all.take(j as int), rule),
        {
            let ghost before = text::strings(v@);
            let ghost one = all.take(j + 1);
            assert(one.drop_last() =~= all.take(j as int));
            assert(one.last() == domains@[j as int]@);
            push_unless_blank(&mut v, domains[j].as_str());
            assert(text::strings(v@) =~= start + picked(one, rule));
        }
        assert(all.take(domains.len() as int) =~= all);
        assert(text::strings(v@) =~= head + saved_exceptions(upto));
    }
    assert(services.take(snapshot.services.len() as int) =~= services);
    sort_dedup(v)
}

/// The commands that set a proxy for a service.
pub open spec fn proxy_commands(
    service: Seq<char>,
    host: Seq<char>,
    port: Seq<char>,
    exceptions: Seq<Seq<char>>,
) -> Seq<Seq<Seq<char>>> {
    seq![
        seq!["-setwebproxy"@, service, host, port, "off"@],
        seq!["-setwebproxystate"@, service, "on"@],
        seq!["-setsecurewebproxy"@, service, host, port, "off"@],
        seq!["-setsecurewebproxystate"@, service, "on"@],
        seq!["-setsocksfirewallproxy"@, service, host, port, "off"@],
        seq!["-setsocksfirewallproxystate"@, service, "on"@],
        seq!["-setproxyautodiscovery"@, service, "off"@],
        seq!["-setautoproxystate"@, service, "off"@],
        seq!["-setproxybypassdomains"@, service] + exceptions,
    ]
}

/// The commands that set a proxy for some services.
pub open spec fn all_proxy_commands(
    services: Seq<SystemProxyServiceSnapshot>,
    host: Seq<char>,
    port: Seq<char>,
    exceptions: Seq<Seq<char>>,
) -> Seq<Seq<Seq<char>>>
    decreases services.len(),
{
    if services.len() == 0 {
        Seq::empty()
    } else {
        all_proxy_commands(services.drop_last(), host, port, exceptions) + proxy_commands(
            services.last().name@,
            host,
            port,
            exceptions,
        )
    }
}

/// How the system proxy is set.
#[derive(Debug)]
pub struct ProxyPlan {
    /// The commands, to be run in order until one fails.
    pub commands: Vec<Vec<String>>,
    /// What is answered once all went well: the number of services that were
    /// set.
    pub services: usize,
}

/// Sets the system proxy of every service of a snapshot. What the snapshot
/// excepts stays excepted, and so does the server.
pub fn set_system_proxy(
    endpoint: &ProxyEndpoint,
    server_host: &str,
    snapshot: &SystemProxySnapshot,
) -> (plan: ProxyPlan)
    ensures
        exists|exceptions: Seq<Seq<char>>| #[trigger]
            sorted::sorted_set_of(exceptions, all_exceptions(server_host@, snapshot.services@))
                && commands(plan.commands@) == all_proxy_commands(
                snapshot.services@,
                endpoint.host@,
                number::decimal(endpoint.port as nat),
                exceptions,
            ),
        plan.services == snapshot.services@.len(),
{
    let exceptions = merged_exceptions(server_host, snapshot);
    ProxyPlan {
        commands: proxy_plan(endpoint, snapshot, &exceptions),
        services: snapshot.services.len(),
    }
}

fn proxy_plan(
    endpoint: &ProxyEndpoint,
    snapshot: &SystemProxySnapshot,
    exceptions: &Vec<String>,
) -> (plan: Vec<Vec<String>>)
    ensures
        commands(plan@) == all_proxy_commands(
            snapshot.services@,
            endpoint.host@,
            number::decimal(endpoint.port as nat),
            text::strings(exceptions@),
        ),
{
    let host = endpoint.host.as_str();
    let port_text = decimal_string(endpoint.port as u64);
    let port = port_text.as_str();
    let ghost services = snapshot.services@;
    let ghost except = text::strings(exceptions@);
    let mut plan: Vec<Vec<String>> = Vec::new();
    assert(services.take(0) =~= Seq::<SystemProxyServiceSnapshot>::empty());
    assert(commands(plan@) =~= all_proxy_commands(services.take(0), host@, port@, except));
    for i in 0..snapshot.services.len()
        invariant
            services == snapshot.services@,
            except == text::strings(exceptions@),
            host@ == endpoint.host@,
            port@ == number::decimal(endpoint.port as nat),
            commands(plan@) == all_proxy_commands(services.take(i as int), host@, port@, except),
    {
        let ghost before = commands(plan@);
        let ghost upto = services.take(i + 1);
        assert(upto.drop_last() =~= services.take(i as int));
        assert(upto.last() == services[i as int]);
        let name = snapshot.services[i].name.as_str();
        push_command(&mut plan, command5("-setwebproxy", name, host, port, "off"));
        push_command(&mut plan, command3("-setwebproxystate", name, "on"));
        push_command(&mut plan, command5("-setsecurewebproxy", name, host, port, "off"));
        push_command(&mut plan, command3("-setsecurewebproxystate", name, "on"));
        push_command(&mut plan, command5("-setsocksfirewallproxy", name, host, port, "off"));
        push_command(&mut plan, command3("-setsocksfirewallproxystate", name, "on"));
        push_command(&mut plan, command3("-setproxyautodiscovery", name, "off"));
        push_command(&mut plan, command3("-setautoproxystate", name, "off"));
        let mut last: Vec<String> = vec!["-setproxybypassdomains".to_owned(), name.to_owned()];
        let mut rest = clone_strings(exceptions);
        last.append(&mut rest);
        assert(text::strings(last@) =~= seq!["-setproxybypassdomains"@, name@] + except);
        push_command(&mut plan, last);
        assert(commands(plan@) =~= before + proxy_commands(name@, host@, port@, except));
    }
    assert(services.take(snapshot.services.len() as int) =~= services);
    plan
}

/// The commands that restore a proxy of a service: on with what it was, or
/// off.
pub open spec fn setting_commands(
    service: Seq<char>,
    set_proxy: Seq<char>,
    set_state: Seq<char>,
    setting: ProxySetting,
) -> Seq<Seq<Seq<char>>> {
    if setting.enabled && setting.server is Some && setting.port is Some {
        seq![
            seq![
                set_proxy,
                service,
                setting.server->0@,
                number::decimal(setting.port->0 as nat),
                "off"@,
            ],
            seq![set_state, service, "on"@],
        ]
    } else {
        seq![seq![set_state, service, "off"@]]
    }
}

/// The commands that restore the proxy script of a service.
pub open spec fn script_commands(service: Seq<char>, script: AutoProxyUrl) -> Seq<Seq<Seq<char>>> {
    if script.url is Some && script.url->0@.len() > 0 {
        seq![
            seq!["-setautoproxyurl"@, service, script.url->0@],
            seq!["-setautoproxystate"@, service, switch(script.enabled)],
        ]
    } else {
        seq![seq!["-setautoproxystate"@, service, "off"@]]
    }
}

/// The commands that restore the proxies of a service.
pub open spec fn restore_commands(s: SystemProxyServiceSnapshot) -> Seq<Seq<Seq<char>>> {
    setting_commands(s.name@, "-setwebproxy"@, "-setwebproxystate"@, s.web_proxy)
        + setting_commands(
        s.name@,
        "-setsecurewebproxy"@,
        "-setsecurewebproxystate"@,
        s.secure_web_proxy,
    ) + setting_commands(
        s.name@,
        "-setsocksfirewallproxy"@,
        "-setsocksfirewallproxystate"@,
        s.socks_proxy,
    ) + seq![
        seq!["-setproxyautodiscovery"@, s.name@, switch(s.proxy_auto_discovery_enabled)],
    ] + script_commands(s.name@, s.auto_proxy_url) + seq![
        list_command("-setproxybypassdomains"@, s.name@, text::strings(s.bypass_domains@)),
    ]
}

/// The commands that restore the proxies of the services that still exist.
pub open spec fn all_restore_commands(
    services: Seq<SystemProxyServiceSnapshot>,
    existing: Seq<Seq<char>>,
) -> Seq<Seq<Seq<char>>>
    decreases services.len(),
{
    if services.len() == 0 {
        Seq::empty()
    } else if existing.contains(services.last().name@) {
        all_restore_commands(services.drop_last(), existing) + restore_commands(services.last())
    } else {
        all_restore_commands(services.drop_last(), existing)
    }
}

fn holds_name(existing: &Vec<String>, name: &String) -> (r: bool)
    ensures
        r == text::strings(existing@).contains(name@),
{
    let ghost all = text::strings(existing@);
    for i in 0..existing.len()
        invariant
            all == text::strings(existing@),
            forall|k: int| 0 <= k < i ==> all[k] != name@,
    {
        if existing[i] == *name {
            assert(all[i as int] == name@);
            return true;
        }
    }
    false
}

/// Adds the commands that restore a proxy of a service.
pub fn restore_proxy_setting(
    plan: &mut Vec<Vec<String>>,
    service: &str,
    set_proxy: &str,
    set_state: &str,
    setting: &ProxySetting,
)
    ensures
        commands(final(plan)@) == commands(old(plan)@) + setting_commands(
            service@,
            set_proxy@,
            set_state@,
            *setting,
        ),
{
    let ghost before = commands(plan@);
    if setting.enabled {
        match (&setting.server, setting.port) {
            (Some(server), Some(port)) => {
                let port_text = decimal_string(port as u64);
                push_command(
                    plan,
                    command5(set_proxy, service, server.as_str(), port_text.as_str(), "off"),
                );
                push_command(plan, command3(set_state, service, "on"));
            },
            _ => {
                push_command(plan, command3(set_state, service, "off"));
            },
        }
    } else {
        push_command(plan, command3(set_state, service, "off"));
    }
    assert(commands(plan@) =~= before + setting_commands(
        service@,
        set_proxy@,
        set_state@,
        *setting,
    ));
}

fn restore_script(plan: &mut Vec<Vec<String>>, service: &str, script: &AutoProxyUrl)
    ensures
        commands(final(plan)@) == commands(old(plan)@) + script_commands(service@, *script),
{
    let ghost before = commands(plan@);
    let mut set = false;
    match &script.url {
        Some(url) => {
            if url.as_str().unicode_len() > 0 {
                set = true;
                push_command(plan, command3("-setautoproxyurl", service, url.as_str()));
                push_command(
                    plan,
                    command3("-setautoproxystate", service, switch_text(script.enabled).as_str()),
                );
            }
        },
        None => {},
    }
    if !set {
        push_command(plan, command3("-setautoproxystate", service, "off"));
    }
    assert(commands(plan@) =~= before + script_commands(service@, *script));
}

fn restore_service(plan: &mut Vec<Vec<String>>, service: &SystemProxyServiceSnapshot)
    ensures
        commands(final(plan)@) == commands(old(plan)@) + restore_commands(*service),
{
    let ghost before = commands(plan@);
    let name = service.name.as_str();
    restore_proxy_setting(
        plan,
        name,
        "-setwebproxy",
        "-setwebproxystate",
        &service.web_proxy,
    );
    restore_proxy_setting(
        plan,
        name,
        "-setsecurewebproxy",
        "-setsecurewebproxystate",
        &service.secure_web_proxy,
    );
    restore_proxy_setting(
        plan,
        name,
        "-setsocksfirewallproxy",
        "-setsocksfirewallproxystate",
        &service.socks_proxy,
    );
    push_command(
        plan,
        command3(
            "-setproxyautodiscovery",
            name,
            switch_text(service.proxy_auto_discovery_enabled).as_str(),
        ),
    );
    restore_script(plan, name, &service.auto_proxy_url);
    push_command(
        plan,
        make_list_command("-setproxybypassdomains", name, &service.bypass_domains),
    );
    assert(commands(plan@) =~= before + restore_commands(*service));
}

/// The commands that restore the system proxy, to be run in order until one
/// fails. Services that are gone are passed over.
pub fn restore_system_proxy(snapshot: &SystemProxySnapshot, existing: &Vec<String>) -> (plan: Vec<
    Vec<String>,
>)
    ensures
        commands(plan@) == all_restore_commands(snapshot.services@, text::strings(existing@)),
{
    let ghost services = snapshot.services@;
    let ghost names = text::strings(existing@);
    let mut plan: Vec<Vec<String>> = Vec::new();
    assert(services.take(0) =~= Seq::<SystemProxyServiceSnapshot>::empty());
    assert(commands(plan@) =~= all_restore_commands(services.take(0), names));
    for i in 0..snapshot.services.len()
        invariant
            services == snapshot.services@,
            names == text::strings(existing@),
            commands(plan@) == all_restore_commands(services.take(i as int), names),
    {
        let ghost upto = services.take(i + 1);
        assert(upto.drop_last() =~= services.take(i as int));
        assert(upto.last() == services[i as int]);
        let service = &snapshot.services[i];
        if holds_name(existing, &service.name) {
            restore_service(&mut plan, service);
        }
    }
    assert(services.take(snapshot.services.len() as int) =~= services);
    plan
}

/// What is done to the system proxy.
#[derive(Debug, Clone, Copy, PartialEq, Eq, Structural)]
pub enum ProxyFlow {
    Apply,
    Restore,
}

/// A step of setting or restoring the system proxy.
#[derive(Debug, Clone, Copy, PartialEq, Eq, Structural)]
pub enum ProxyStep {
    /// Make sure that the endpoint is good.
    Validate,
    /// List the network services, of which there must be some to set.
    ListServices,
    /// Read the snapshot that is there.
    ReadSnapshot,
    /// Ask the services for their settings.
    TakeSnapshot,
    /// Write what they answered.
    SaveSnapshot,
    /// Run the commands, until one fails.
    RunCommands,
    RemoveSnapshot,
}

/// The steps, in order, where each goes well. A snapshot that is there is used
/// and not made again; without one there is nothing to restore.
pub open spec fn proxy_path(flow: ProxyFlow, snapshot: bool) -> Seq<ProxyStep> {
    match flow {
        ProxyFlow::Apply => if snapshot {
            seq![
                ProxyStep::Validate,
                ProxyStep::ListServices,
                ProxyStep::ReadSnapshot,
                ProxyStep::RunCommands,
            ]
        } else {
            seq![
                ProxyStep::Validate,
                ProxyStep::ListServices,
                ProxyStep::TakeSnapshot,
                ProxyStep::SaveSnapshot,
                ProxyStep::RunCommands,
            ]
        },
        ProxyFlow::Restore => if snapshot {
            seq![
                ProxyStep::ReadSnapshot,
                ProxyStep::ListServices,
                ProxyStep::RunCommands,
                ProxyStep::RemoveSnapshot,
            ]
        } else {
            Seq::empty()
        },
    }
}

/// The steps of setting or restoring the system proxy, to be taken in order
/// until one fails. `snapshot` tells whether there is one.
pub fn proxy_steps(flow: ProxyFlow, snapshot: bool) -> (r: Vec<ProxyStep>)
    ensures
        r@ == proxy_path(flow, snapshot),
{
    let mut r: Vec<ProxyStep> = Vec::new();
    match flow {
        ProxyFlow::Apply => {
            r.push(ProxyStep::Validate);
            r.push(ProxyStep::ListServices);
            if snapshot {
                r.push(ProxyStep::ReadSnapshot);
            } else {
                r.push(ProxyStep::TakeSnapshot);
                r.push(ProxyStep::SaveSnapshot);
            }
            r.push(ProxyStep::RunCommands);
        },
        ProxyFlow::Restore => {
            if snapshot {
                r.push(ProxyStep::ReadSnapshot);
                r.push(ProxyStep::ListServices);
                r.push(ProxyStep::RunCommands);
                r.push(ProxyStep::RemoveSnapshot);
            }
        },
    }
    assert(r@ =~= proxy_path(flow, snapshot));
    r
}

/// Setting the proxy never writes over a snapshot that is there, nor removes
/// one.
pub proof fn a_snapshot_is_never_overwritten(i: int)
    requires
        0 <= i < proxy_path(ProxyFlow::Apply, true).len(),
    ensures
        proxy_path(ProxyFlow::Apply, true)[i] != ProxyStep::SaveSnapshot,
        proxy_path(ProxyFlow::Apply, true)[i] != ProxyStep::RemoveSnapshot,
{
}

/// The snapshot is removed last, so it stays where any step of restoring
/// failed: of the steps up to one that is not the last, none removes it. No
/// step of restoring writes one.
pub proof fn a_failed_restore_keeps_the_snapshot(failed: int, i: int)
    requires
        0 <= i <= failed < proxy_path(ProxyFlow::Restore, true).len() - 1,
    ensures
        proxy_path(ProxyFlow::Restore, true)[i] != ProxyStep::RemoveSnapshot,
        proxy_path(ProxyFlow::Restore, true)[i] != ProxyStep::SaveSnapshot,
        proxy_path(ProxyFlow::Restore, true).last() == ProxyStep::RemoveSnapshot,
{
}

/// The commands that restore the name servers of the services that still
/// exist.
pub open spec fn network_commands(
    services: Seq<TunNetworkServiceSnapshot>,
    existing: Seq<Seq<char>>,
) -> Seq<Seq<Seq<char>>>
    decreases services.len(),
{
    if services.len() == 0 {
        Seq::empty()
    } else if existing.contains(services.last().name@) {
        network_commands(services.drop_last(), existing).push(
            list_command(
                "-setdnsservers"@,
                services.last().name@,
                text::strings(services.last().dns_servers@),
            ),
        ).push(
            list_command(
                "-setsearchdomains"@,
                services.last().name@,
                text::strings(services.last().search_domains@),
            ),
        )
    } else {
        network_commands(services.drop_last(), existing)
    }
}

/// The commands that restore the name servers, to be run in order until one
/// fails. Services that are gone are passed over.
pub fn restore_tun_network_state(snapshot: &TunNetworkSnapshot, existing: &Vec<String>) -> (plan:
    Vec<Vec<String>>)
    ensures
        commands(plan@) == network_commands(snapshot.services@, text::strings(existing@)),
{
    let ghost services = snapshot.services@;
    let ghost names = text::strings(existing@);
    let mut plan: Vec<Vec<String>> = Vec::new();
    assert(services.take(0) =~= Seq::<TunNetworkServiceSnapshot>::empty());
    assert(commands(plan@) =~= network_commands(services.take(0), names));
    for i in 0..snapshot.services.len()
        invariant
            services == snapshot.services@,
            names == text::strings(existing@),
            commands(plan@) == network_commands(services.take(i as int), names),
    {
        let ghost upto = services.take(i + 1);
        assert(upto.drop_last() =~= services.take(i as int));
        assert(upto.last() == services[i as int]);
        let service = &snapshot.services[i];
        if holds_name(existing, &service.name) {
            let name = service.name.as_str();
            push_command(&mut plan, make_list_command("-setdnsservers", name, &service.dns_servers));
            push_command(
                &mut plan,
                make_list_command("-setsearchdomains", name, &service.search_domains),
            );
        }
    }
    assert(services.take(snapshot.services.len() as int) =~= services);
    plan
}

/// What a missing snapshot is answered.
pub fn snapshot_missing(path: &str) -> (r: AtrError)
    ensures
        r.says(ErrorCode::NotFound, "tun network snapshot not found: "@ + path@),
{
    AtrError::NotFound("tun network snapshot not found: ".to_owned().concat(path))
}

/// The commands that clear the name servers of some services.
pub open spec fn reset_commands(services: Seq<Seq<char>>) -> Seq<Seq<Seq<char>>>
    decreases services.len(),
{
    if services.len() == 0 {
        Seq::empty()
    } else {
        reset_commands(services.drop_last()).push(
            seq!["-setdnsservers"@, services.last(), "Empty"@],
        ).push(seq!["-setsearchdomains"@, services.last(), "Empty"@])
    }
}

/// The commands that clear all name servers, to be run whatever comes of each.
pub fn reset_dns_to_default(services: &Vec<String>) -> (plan: Vec<Vec<String>>)
    ensures
        commands(plan@) == reset_commands(text::strings(services@)),
{
    let ghost all = text::strings(services@);
    let mut plan: Vec<Vec<String>> = Vec::new();
    assert(commands(plan@) =~= reset_commands(all.take(0)));
    for i in 0..services.len()
        invariant
            all == text::strings(services@),
            commands(plan@) == reset_commands(all.take(i as int)),
    {
        let ghost upto = all.take(i + 1);
        assert(upto.drop_last() =~= all.take(i as int));
        assert(upto.last() == services@[i as int]@);
        push_command(&mut plan, command3("-setdnsservers", services[i].as_str(), "Empty"));
        push_command(&mut plan, command3("-setsearchdomains", services[i].as_str(), "Empty"));
    }
    assert(all.take(services.len() as int) =~= all);
    plan
}

// ---------------------------------------------------------------------------
// Laws
// ---------------------------------------------------------------------------

proof fn lemma_no_value(lines: Seq<Seq<char>>, key: Seq<char>)
    requires
        forall|k: int|
            0 <= k < lines.len() ==> match text::split_at_first(#[trigger] lines[k], ':') {
                Some((name, _)) => text::trim(name) != key,
                None => true,
            },
    ensures
        value_of(pairs_in(lines), key) is None,
    decreases lines.len(),
{
    if lines.len() > 0 {
        let fewer = lines.drop_last();
        assert forall|k: int| 0 <= k < fewer.len() implies match text::split_at_first(
            #[trigger] fewer[k],
            ':',
        ) {
            Some((name, _)) => text::trim(name) != key,
            None => true,
        } by {
            assert(fewer[k] == lines[k]);
        }
        lemma_no_value(fewer, key);
        let head = pairs_in(fewer);
        let last = lines[lines.len() - 1];
        match text::split_at_first(last, ':') {
            Some((name, value)) => {
                let all = pairs_in(lines);
                assert(all.drop_last() =~= head);
            },
            None => {},
        }
    }
}

/// The value of a key is what stands behind the colon of the last line about
/// it, without white space at its ends; a key that no line is about has none.
pub proof fn the_last_line_of_a_key_counts(
    lines: Seq<Seq<char>>,
    i: int,
    key: Seq<char>,
    value: Seq<char>,
    other: Seq<char>,
)
    requires
        is_last_of(lines, i, key),
        lines[i] == key + seq![':'] + value,
        !key.contains(':'),
        text::trim(key) == key,
        forall|k: int|
            0 <= k < lines.len() ==> match text::split_at_first(#[trigger] lines[k], ':') {
                Some((name, _)) => text::trim(name) != other,
                None => true,
            },
    ensures
        value_of(pairs_in(lines), key) == Some(text::trim(value)),
        value_of(pairs_in(lines), other) is None,
{
    lemma_last_line(lines, i, key, value);
    lemma_no_value(lines, other);
}

proof fn lemma_last_line(lines: Seq<Seq<char>>, i: int, key: Seq<char>, value: Seq<char>)
    requires
        is_last_of(lines, i, key),
        lines[i] == key + seq![':'] + value,
        !key.contains(':'),
        text::trim(key) == key,
    ensures
        value_of(pairs_in(lines), key) == Some(text::trim(value)),
    decreases lines.len(),
{
    let fewer = lines.drop_last();
    let head = pairs_in(fewer);
    let all = pairs_in(lines);
    text::cutting_at_the_first_undoes_joining(key, ':', value);
    if i == lines.len() - 1 {
        assert(all.last() == (key, text::trim(value)));
    } else {
        assert forall|k: int| i < k < fewer.len() implies match text::split_at_first(
            #[trigger] fewer[k],
            ':',
        ) {
            Some((name, _)) => text::trim(name) != key,
            None => true,
        } by {
            assert(fewer[k] == lines[k]);
        }
        assert(fewer[i] == lines[i]);
        lemma_last_line(fewer, i, key, value);
        let last = lines[lines.len() - 1];
        match text::split_at_first(last, ':') {
            Some((name, v)) => {
                assert(all.drop_last() =~= head);
            },
            None => {},
        }
    }
}

proof fn lemma_key(key: Seq<char>)
    requires
        key == "Port"@ || key == "Server"@ || key == "Enabled"@ || key == "URL"@,
    ensures
        !key.contains(':'),
        text::trim(key) == key,
{
    reveal_strlit("Port");
    reveal_strlit("Server");
    reveal_strlit("Enabled");
    reveal_strlit("URL");
    text::a_trimmed_text_stays(key);
}

proof fn lemma_padded(pad: Seq<char>, s: Seq<char>)
    requires
        forall|k: int| 0 <= k < pad.len() ==> text::is_white(#[trigger] pad[k]),
        s.len() == 0 || (!text::is_white(s[0]) && !text::is_white(s.last())),
    ensures
        text::trim(pad + s) == s,
{
    let none = Seq::<char>::empty();
    assert forall|k: int| 0 <= k < pad.len() implies text::CharClass::White.holds(
        #[trigger] pad[k],
    ) by {
        assert(text::is_white(pad[k]));
    }
    text::trimming_undoes_padding(pad, s, none, text::CharClass::White);
    assert(pad + s + none =~= pad + s);
}

proof fn lemma_port_line(lines: Seq<Seq<char>>, i: int, pad: Seq<char>, n: u16)
    requires
        port_line(lines, i, pad, n),
    ensures
        port_at(pairs_in(lines)) == Some(n as int),
{
    let d = number::decimal(n as nat);
    lemma_key("Port"@);
    lemma_last_line(lines, i, "Port"@, pad + d);
    number::lemma_decimal(n as nat);
    assert(number::is_digit(d[0]) && number::is_digit(d[d.len() - 1]));
    lemma_padded(pad, d);
    number::parse_of_decimal(n as nat, 65535);
}

/// A proxy that an answer describes has the port that the answer names, for
/// every port, and the server that it names, and is on if and only if the
/// answer says one of the words for yes; a port that is no number below 65536
/// is none.
pub proof fn an_answer_is_read_as_it_is_written(
    output: Seq<char>,
    p: ProxySetting,
    i: int,
    pad: Seq<char>,
    port: nat,
    j: int,
    server: Seq<char>,
    k: int,
    word: Seq<char>,
)
    requires
        describes_proxy(output, p),
        forall|m: int| 0 <= m < pad.len() ==> text::is_white(#[trigger] pad[m]),
        is_last_of(text::lines(output), i, "Port"@),
        text::lines(output)[i] == "Port"@ + seq![':'] + (pad + number::decimal(port)),
        is_last_of(text::lines(output), j, "Server"@),
        text::lines(output)[j] == "Server"@ + seq![':'] + (pad + server),
        server.len() > 0,
        !text::is_white(server[0]) && !text::is_white(server.last()),
        server != "(null)"@,
        is_last_of(text::lines(output), k, "Enabled"@),
        text::lines(output)[k] == "Enabled"@ + seq![':'] + (pad + word),
        word.len() > 0,
        !text::is_white(word[0]) && !text::is_white(word.last()),
    ensures
        port <= 65535 ==> p.port is Some && p.port->0 == port,
        port > 65535 ==> p.port is None,
        p.server is Some && p.server->0@ == server,
        word == "Yes"@ || word == "yes"@ || word == "On"@ || word == "1"@ || word == "true"@
            ==> p.enabled,
        word == "No"@ || word == "Off"@ || word == "0"@ ==> !p.enabled,
{
    let lines = text::lines(output);
    let d = number::decimal(port);
    lemma_key("Port"@);
    lemma_key("Server"@);
    lemma_key("Enabled"@);
    number::lemma_decimal(port);
    assert(number::is_digit(d[0]) && number::is_digit(d[d.len() - 1]));
    lemma_padded(pad, d);
    lemma_padded(pad, server);
    lemma_padded(pad, word);
    lemma_last_line(lines, i, "Port"@, pad + d);
    lemma_last_line(lines, j, "Server"@, pad + server);
    lemma_last_line(lines, k, "Enabled"@, pad + word);
    text::a_trimmed_text_stays(server);
    text::a_trimmed_text_stays(word);
    if port <= 65535 {
        number::parse_of_decimal(port, 65535);
    } else {
        number::only_numbers_within_the_limit_are_read(port, 65535, seq!['x'], 0);
    }
    the_words_for_yes(word);
}

/// The words for yes are `yes`, `on`, `1` and `true`, in whatever case, and
/// `no`, `off` and `0` are none of them.
pub proof fn the_words_for_yes(word: Seq<char>)
    requires
        word.len() > 0,
        !text::is_white(word[0]) && !text::is_white(word.last()),
    ensures
        text::lower(word) == seq!['y', 'e', 's'] || text::lower(word) == seq!['o', 'n'] || text::lower(
            word,
        ) == seq!['1'] || text::lower(word) == seq!['t', 'r', 'u', 'e'] <==> means_yes(word),
        word == "Yes"@ || word == "yes"@ || word == "On"@ || word == "1"@ || word == "true"@
            ==> means_yes(word),
        word == "No"@ || word == "Off"@ || word == "0"@ ==> !means_yes(word),
{
    reveal_strlit("yes");
    reveal_strlit("on");
    reveal_strlit("1");
    reveal_strlit("true");
    reveal_strlit("Yes");
    reveal_strlit("On");
    reveal_strlit("No");
    reveal_strlit("Off");
    reveal_strlit("0");
    text::a_trimmed_text_stays(word);
    let v = text::lower(word);
    assert("yes"@ =~= seq!['y', 'e', 's']);
    assert("on"@ =~= seq!['o', 'n']);
    assert("1"@ =~= seq!['1']);
    assert("true"@ =~= seq!['t', 'r', 'u', 'e']);
    if word == "Yes"@ || word == "yes"@ {
        assert(v =~= "yes"@);
    }
    if word == "On"@ {
        assert(v =~= "on"@);
    }
    if word == "1"@ {
        assert(v =~= "1"@);
    }
    if word == "true"@ {
        assert(v =~= "true"@);
    }
    if word == "No"@ {
        assert(v[0] == 'n');
    }
    if word == "Off"@ {
        assert(v.len() == 3 && v[0] == 'o');
    }
    if word == "0"@ {
        assert(v[0] == '0');
    }
}

proof fn lemma_picked(
    lines: Seq<Seq<char>>,
    rule: spec_fn(Seq<char>) -> Option<Seq<char>>,
    x: Seq<char>,
)
    ensures
        picked(lines, rule).contains(x) <==> exists|i: int|
            0 <= i < lines.len() && rule(#[trigger] lines[i]) == Some(x),
    decreases lines.len(),
{
    if lines.len() > 0 {
        let fewer = lines.drop_last();
        let head = picked(fewer, rule);
        let all = picked(lines, rule);
        lemma_picked(fewer, rule, x);
        if all.contains(x) {
            let k = choose|k: int| 0 <= k < all.len() && all[k] == x;
            if k < head.len() {
                assert(head[k] == x);
                let i = choose|i: int| 0 <= i < fewer.len() && rule(#[trigger] fewer[i]) == Some(x);
                assert(lines[i] == fewer[i]);
            } else {
                assert(rule(lines[lines.len() - 1]) == Some(x));
            }
        }
        if exists|i: int| 0 <= i < lines.len() && rule(#[trigger] lines[i]) == Some(x) {
            let i = choose|i: int| 0 <= i < lines.len() && rule(#[trigger] lines[i]) == Some(x);
            if i < fewer.len() {
                assert(fewer[i] == lines[i]);
                let k = choose|k: int| 0 <= k < head.len() && head[k] == x;
                assert(all[k] == x);
            } else {
                assert(all[head.len() as int] == x);
            }
        }
    }
}

/// Of some lines, exactly those of which a rule makes something are taken, in
/// their order: more lines only add to what is taken.
pub proof fn lines_are_picked_one_by_one(
    a: Seq<Seq<char>>,
    b: Seq<Seq<char>>,
    rule: spec_fn(Seq<char>) -> Option<Seq<char>>,
)
    ensures
        picked(a + b, rule) == picked(a, rule) + picked(b, rule),
        forall|i: int|
            0 <= i < a.len() && rule(#[trigger] a[i]) is Some ==> picked(a, rule).contains(
                rule(a[i])->0,
            ),
        (forall|i: int| 0 <= i < a.len() ==> rule(#[trigger] a[i]) is Some) ==> picked(
            a,
            rule,
        ).len() == a.len() && forall|i: int|
            0 <= i < a.len() ==> Some(#[trigger] picked(a, rule)[i]) == rule(a[i]),
    decreases a.len() + b.len(),
{
    if b.len() == 0 {
        assert(a + b =~= a);
        assert(picked(a, rule) + picked(b, rule) =~= picked(a, rule));
        if a.len() > 0 {
            let fewer = a.drop_last();
            lines_are_picked_one_by_one(fewer, b, rule);
            if forall|i: int| 0 <= i < a.len() ==> rule(#[trigger] a[i]) is Some {
                assert forall|i: int| 0 <= i < fewer.len() implies rule(
                    #[trigger] fewer[i],
                ) is Some by {
                    assert(fewer[i] == a[i]);
                }
                assert(rule(a[a.len() - 1]) is Some);
                assert forall|i: int| 0 <= i < a.len() implies Some(
                    #[trigger] picked(a, rule)[i],
                ) == rule(a[i]) by {
                    if i < fewer.len() {
                        assert(picked(a, rule)[i] == picked(fewer, rule)[i]);
                        assert(fewer[i] == a[i]);
                    }
                }
            }
        }
        assert forall|i: int| 0 <= i < a.len() && rule(#[trigger] a[i]) is Some implies picked(
            a,
            rule,
        ).contains(rule(a[i])->0) by {
            lemma_picked(a, rule, rule(a[i])->0);
        }
    } else {
        lines_are_picked_one_by_one(a, b.drop_last(), rule);
        assert((a + b).drop_last() =~= a + b.drop_last());
        assert((a + b).last() == b.last());
        assert(picked(a + b, rule) =~= picked(a, rule) + picked(b, rule));
    }
}

/// A line of the service list that is a name is the service of that name, and
/// a star in front of it changes nothing; a blank line and the line that
/// explains the star name none.
pub proof fn a_service_line_names_its_service(name: Seq<char>, rest: Seq<char>)
    requires
        name.len() > 0,
        !text::is_white(name[0]) && !text::is_white(name.last()),
        name[0] != '*' && name[0] != 'A',
    ensures
        service_of(name) == Some(name),
        service_of(seq!['*'] + name) == Some(name),
        service_of(seq![' ', ' '] + name) == Some(name),
        service_of(Seq::empty()) is None,
        rest.len() > 0 && !text::is_white(rest.last()) ==> service_of("An asterisk"@ + rest) is None,
{
    reveal_strlit("An asterisk");
    reveal_strlit("*");
    let word = "An asterisk"@;
    text::a_trimmed_text_stays(name);
    text::a_trimmed_text_stays(Seq::empty());
    assert(name.take(1)[0] == name[0]);
    if name.len() >= word.len() {
        assert(name.take(word.len() as int)[0] == name[0]);
    }
    assert("*"@[0] == '*');
    let s = seq!['*'] + name;
    assert(s[0] == '*' && s[s.len() - 1] == name[name.len() - 1]);
    text::a_trimmed_text_stays(s);
    assert(s.take(1) =~= "*"@);
    assert(s.skip(1) =~= name);
    if s.len() >= word.len() {
        assert(s.take(word.len() as int)[0] == '*');
    }
    let pad = seq![' ', ' '];
    lemma_padded(pad, name);
    if rest.len() > 0 && !text::is_white(rest.last()) {
        let t = word + rest;
        assert(t[0] == 'A' && t[t.len() - 1] == rest[rest.len() - 1]);
        text::a_trimmed_text_stays(t);
        assert(t.take(word.len() as int) =~= word);
    }
}

/// An entry of a list, and a bypass domain, are the line itself without white
/// space at its ends, unless it is blank or says that there is nothing; a line
/// without an apostrophe that is not about configuration says no such thing.
pub proof fn a_list_line_is_its_entry(line: Seq<char>)
    ensures
        entry_of(line) is Some ==> entry_of(line)->0 == text::trim(line) && text::trim(line).len()
            > 0,
        bypass_of(line) is Some ==> bypass_of(line)->0 == text::trim(line) && text::trim(line).len()
            > 0,
        text::trim(line).len() > 0 && !text::lower(text::trim(line)).contains('\'') && !text::lower(
            text::trim(line),
        ).contains('f') ==> entry_of(line) == Some(text::trim(line)),
        text::trim(line).len() > 0 && !text::lower(text::trim(line)).contains(' ') ==> bypass_of(line)
            == Some(text::trim(line)),
{
    reveal_strlit("there aren't any");
    reveal_strlit("aren't any");
    reveal_strlit("not configured");
    reveal_strlit("there aren");
    reveal_strlit("bypass domain");
    let t = text::lower(text::trim(line));
    if text::trim(line).len() > 0 && !t.contains('\'') && !t.contains('f') {
        lemma_not_mentioned(t, "there aren't any"@, 10);
        lemma_not_mentioned(t, "aren't any"@, 4);
        lemma_not_mentioned(t, "not configured"@, 7);
    }
    if text::trim(line).len() > 0 && !t.contains(' ') {
        lemma_not_mentioned(t, "there aren"@, 5);
        lemma_not_mentioned(t, "bypass domain"@, 6);
    }
}

proof fn lemma_not_mentioned(t: Seq<char>, p: Seq<char>, k: int)
    requires
        0 <= k < p.len(),
        !t.contains(p[k]),
    ensures
        !text::contains_text(t, p),
{
    if text::contains_text(t, p) {
        let i = choose|i: int|
            0 <= i <= t.len() - p.len() && #[trigger] t.subrange(i, i + p.len()) == p;
        assert(t.subrange(i, i + p.len())[k] == t[i + k]);
        assert(t.contains(t[i + k]));
    }
}

/// What was excepted stays excepted: this machine and its network, the server,
/// and every domain that any service excepted before; and nothing else is.
pub proof fn every_exception_is_kept(
    exceptions: Seq<Seq<char>>,
    server_host: Seq<char>,
    services: Seq<SystemProxyServiceSnapshot>,
    i: int,
    j: int,
)
    requires
        sorted::sorted_set_of(exceptions, all_exceptions(server_host, services)),
    ensures
        exceptions.contains("localhost"@),
        exceptions.contains("127.0.0.1"@),
        exceptions.contains("::1"@),
        exceptions.contains("*.local"@),
        exceptions.contains("169.254/16"@),
        text::trim(server_host).len() > 0 ==> exceptions.contains(text::trim(server_host)),
        0 <= i < services.len() && 0 <= j < services[i].bypass_domains@.len() && text::trim(
            services[i].bypass_domains@[j]@,
        ).len() > 0 ==> exceptions.contains(text::trim(services[i].bypass_domains@[j]@)),
        forall|x: Seq<char>| #[trigger]
            exceptions.contains(x) ==> fixed_exceptions().contains(x) || x == text::trim(
                server_host,
            ) || exists|a: int, b: int|
                0 <= a < services.len() && 0 <= b < services[a].bypass_domains@.len() && x
                    == text::trim((#[trigger] services[a].bypass_domains@[b])@),
{
    let rule = |t: Seq<char>| unless_blank(t);
    let server = picked(seq![server_host], rule);
    let saved = saved_exceptions(services);
    let all = all_exceptions(server_host, services);
    let fixed = fixed_exceptions();
    assert(all =~= fixed + server + saved);
    assert(all[0] == "localhost"@ && all[1] == "127.0.0.1"@ && all[2] == "::1"@ && all[3]
        == "*.local"@ && all[4] == "169.254/16"@);
    assert(all.contains(all[0]) && all.contains(all[1]) && all.contains(all[2]) && all.contains(
        all[3],
    ) && all.contains(all[4]));
    if text::trim(server_host).len() > 0 {
        assert(rule(seq![server_host][0]) == Some(text::trim(server_host)));
        lemma_picked(seq![server_host], rule, text::trim(server_host));
        let k = choose|k: int| 0 <= k < server.len() && server[k] == text::trim(server_host);
        assert(all[5 + k] == text::trim(server_host));
    }
    if 0 <= i < services.len() && 0 <= j < services[i].bypass_domains@.len() && text::trim(
        services[i].bypass_domains@[j]@,
    ).len() > 0 {
        let x = text::trim(services[i].bypass_domains@[j]@);
        lemma_saved_exceptions(services, x);
        assert(saved.contains(x));
        let k = choose|k: int| 0 <= k < saved.len() && saved[k] == x;
        assert(all[5 + server.len() + k] == x);
    }
    assert forall|x: Seq<char>| #[trigger] exceptions.contains(x) implies fixed.contains(x) || x
        == text::trim(server_host) || exists|a: int, b: int|
        0 <= a < services.len() && 0 <= b < services[a].bypass_domains@.len() && x == text::trim(
            (#[trigger] services[a].bypass_domains@[b])@,
        ) by {
        assert(all.contains(x));
        let k = choose|k: int| 0 <= k < all.len() && all[k] == x;
        if k < 5 {
            assert(fixed[k] == x);
        } else if k < 5 + server.len() {
            assert(server[k - 5] == x);
            assert(server.contains(x));
            lemma_picked(seq![server_host], rule, x);
        } else {
            assert(saved[k - 5 - server.len()] == x);
            assert(saved.contains(x));
            lemma_saved_exceptions(services, x);
        }
    }
}

proof fn lemma_saved_exceptions(services: Seq<SystemProxyServiceSnapshot>, x: Seq<char>)
    ensures
        saved_exceptions(services).contains(x) <==> exists|a: int, b: int|
            0 <= a < services.len() && 0 <= b < services[a].bypass_domains@.len() && x
                == text::trim((#[trigger] services[a].bypass_domains@[b])@) && x.len() > 0,
    decreases services.len(),
{
    if services.len() > 0 {
        let rule = |t: Seq<char>| unless_blank(t);
        let fewer = services.drop_last();
        let last = services.last();
        let head = saved_exceptions(fewer);
        let domains = text::strings(last.bypass_domains@);
        let tail = picked(domains, rule);
        let all = saved_exceptions(services);
        assert(all == head + tail);
        lemma_saved_exceptions(fewer, x);
        lemma_picked(domains, rule, x);
        if all.contains(x) {
            let k = choose|k: int| 0 <= k < all.len() && all[k] == x;
            if k < head.len() {
                assert(head[k] == x);
                let (a, b) = choose|a: int, b: int|
                    0 <= a < fewer.len() && 0 <= b < fewer[a].bypass_domains@.len() && x
                        == text::trim((#[trigger] fewer[a].bypass_domains@[b])@) && x.len() > 0;
                assert(x == text::trim(services[a].bypass_domains@[b]@));
            } else {
                assert(tail[k - head.len()] == x);
                let b = choose|b: int|
                    0 <= b < domains.len() && rule(#[trigger] domains[b]) == Some(x);
                let a = services.len() - 1;
                assert(x == text::trim(services[a].bypass_domains@[b]@));
            }
        }
        if exists|a: int, b: int|
            0 <= a < services.len() && 0 <= b < services[a].bypass_domains@.len() && x
                == text::trim((#[trigger] services[a].bypass_domains@[b])@) && x.len() > 0 {
            let (a, b) = choose|a: int, b: int|
                0 <= a < services.len() && 0 <= b < services[a].bypass_domains@.len() && x
                    == text::trim((#[trigger] services[a].bypass_domains@[b])@) && x.len() > 0;
            if a < fewer.len() {
                assert(x == text::trim(fewer[a].bypass_domains@[b]@));
                let k = choose|k: int| 0 <= k < head.len() && head[k] == x;
                assert(all[k] == x);
            } else {
                assert(domains[b] == last.bypass_domains@[b]@);
                assert(rule(domains[b]) == Some(x));
                let k = choose|k: int| 0 <= k < tail.len() && tail[k] == x;
                assert(all[head.len() + k] == x);
            }
        }
    }
}

/// A value says what it is without the white space around it. A blank one, and
/// the one that stands for nothing, say nothing.
pub proof fn a_value_is_what_stands_between_the_white_space(
    a: Seq<char>,
    value: Seq<char>,
    b: Seq<char>,
)
    requires
        forall|k: int| 0 <= k < a.len() ==> text::is_white(#[trigger] a[k]),
        forall|k: int| 0 <= k < b.len() ==> text::is_white(#[trigger] b[k]),
        value.len() == 0 || (!text::is_white(value[0]) && !text::is_white(value.last())),
    ensures
        value.len() > 0 && value != "(null)"@ ==> meaningful(Some(a + value + b)) == Some(value),
        value.len() == 0 || value == "(null)"@ ==> meaningful(Some(a + value + b)) is None,
        meaningful(None) is None,
{
    assert forall|k: int| 0 <= k < a.len() implies text::CharClass::White.holds(
        #[trigger] a[k],
    ) by {
        assert(text::is_white(a[k]));
    }
    assert forall|k: int| 0 <= k < b.len() implies text::CharClass::White.holds(
        #[trigger] b[k],
    ) by {
        assert(text::is_white(b[k]));
    }
    text::trimming_undoes_padding(a, value, b, text::CharClass::White);
}

/// The address of a proxy script is what the last line about it says, and the
/// script is on if and only if the answer says one of the words for yes.
pub proof fn the_address_of_a_script_is_read(
    lines: Seq<Seq<char>>,
    i: int,
    pad: Seq<char>,
    url: Seq<char>,
    k: int,
    word: Seq<char>,
)
    requires
        forall|m: int| 0 <= m < pad.len() ==> text::is_white(#[trigger] pad[m]),
        is_last_of(lines, i, "URL"@),
        lines[i] == "URL"@ + seq![':'] + (pad + url),
        url.len() > 0,
        !text::is_white(url[0]) && !text::is_white(url.last()),
        url != "(null)"@,
        is_last_of(lines, k, "Enabled"@),
        lines[k] == "Enabled"@ + seq![':'] + (pad + word),
        word.len() > 0,
        !text::is_white(word[0]) && !text::is_white(word.last()),
    ensures
        meaningful(value_of(pairs_in(lines), "URL"@)) == Some(url),
        yes_at(pairs_in(lines), "Enabled"@) <==> means_yes(word),
{
    lemma_key("URL"@);
    lemma_key("Enabled"@);
    lemma_padded(pad, url);
    lemma_padded(pad, word);
    lemma_last_line(lines, i, "URL"@, pad + url);
    lemma_last_line(lines, k, "Enabled"@, pad + word);
    text::a_trimmed_text_stays(url);
    text::a_trimmed_text_stays(word);
}

proof fn lemma_no_pairs(lines: Seq<Seq<char>>)
    requires
        forall|k: int| 0 <= k < lines.len() ==> !(#[trigger] lines[k]).contains(':'),
    ensures
        pairs_in(lines).len() == 0,
    decreases lines.len(),
{
    if lines.len() > 0 {
        let fewer = lines.drop_last();
        assert forall|k: int| 0 <= k < fewer.len() implies !(#[trigger] fewer[k]).contains(':') by {
            assert(fewer[k] == lines[k]);
        }
        lemma_no_pairs(fewer);
        let last = lines[lines.len() - 1];
        assert(!last.contains(':'));
        text::cutting_at_the_first_undoes_joining(last, ':', last);
    }
}

/// An answer without a colon says yes if and only if it holds the word, in
/// whatever case. An answer with values says what the value of its least key
/// says.
pub proof fn an_answer_says_yes_by_its_value_or_somewhere(output: Seq<char>, i: int)
    ensures
        (forall|k: int|
            0 <= k < text::lines(output).len() ==> !(#[trigger] text::lines(output)[k]).contains(
                ':',
            )) ==> (says_yes(output) <==> text::contains_text(text::lower(output), "yes"@)),
        ({
            let pairs = pairs_in(text::lines(output));
            0 <= i < pairs.len() && (forall|k: int|
                0 <= k < pairs.len() ==> !sorted::text_lt((#[trigger] pairs[k]).0, pairs[i].0))
                ==> says_yes(output) == means_yes(value_of(pairs, pairs[i].0)->0)
        }),
{
    let lines = text::lines(output);
    let pairs = pairs_in(lines);
    if forall|k: int| 0 <= k < lines.len() ==> !(#[trigger] lines[k]).contains(':') {
        lemma_no_pairs(lines);
    }
    if 0 <= i < pairs.len() && (forall|k: int|
        0 <= k < pairs.len() ==> !sorted::text_lt((#[trigger] pairs[k]).0, pairs[i].0)) {
        the_least_key_is_least(pairs, i);
        lemma_least_key_is_there(pairs);
        let k = choose|k: int| 0 <= k < pairs.len() && (#[trigger] pairs[k]).0 == least_key(pairs);
        sorted::lemma_text_lt_total(pairs[i].0, least_key(pairs));
        assert(!sorted::text_lt(pairs[k].0, pairs[i].0));
        assert(least_key(pairs) == pairs[i].0);
    }
}

proof fn lemma_least_key_is_there(pairs: Seq<(Seq<char>, Seq<char>)>)
    requires
        pairs.len() > 0,
    ensures
        exists|k: int| 0 <= k < pairs.len() && (#[trigger] pairs[k]).0 == least_key(pairs),
    decreases pairs.len(),
{
    if pairs.len() == 1 {
        assert(pairs[0].0 == least_key(pairs));
    } else {
        let fewer = pairs.drop_last();
        lemma_least_key_is_there(fewer);
        let k = choose|k: int| 0 <= k < fewer.len() && (#[trigger] fewer[k]).0 == least_key(fewer);
        assert(pairs[k] == fewer[k]);
        assert(pairs[pairs.len() - 1] == pairs.last());
    }
}

} // verus!
