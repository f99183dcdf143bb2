//! What the `networksetup` commands do to the settings of the system.
//!
//! The commands are read as the manual of the tool describes them. On that
//! reading, setting the system proxy reaches every service, and restoring it
//! brings back what was saved.
use crate::networksetup;
use crate::networksetup::{
    AutoProxyUrl, ProxyFlow, ProxySetting, ProxyStep, SystemProxyServiceSnapshot,
    TunNetworkServiceSnapshot,
};
use crate::number;
use crate::text;
use vstd::prelude::*;

verus! {

/// A proxy of a service.
pub struct ProxyState {
    pub enabled: bool,
    pub server: Seq<char>,
    pub port: Seq<char>,
}

/// The settings of a service.
pub struct ServiceState {
    pub web: ProxyState,
    pub secure_web: ProxyState,
    pub socks: ProxyState,
    pub discovery: bool,
    pub script: Seq<char>,
    pub script_enabled: bool,
    pub bypass: Seq<Seq<char>>,
    pub dns_servers: Seq<Seq<char>>,
    pub search_domains: Seq<Seq<char>>,
}

/// What a command is about.
pub enum Verb {
    Web,
    WebState,
    SecureWeb,
    SecureWebState,
    Socks,
    SocksState,
    Discovery,
    Script,
    ScriptState,
    Bypass,
    Dns,
    Search,
}

/// What an option of the tool is about.
pub open spec fn verb_of(option: Seq<char>) -> Option<Verb> {
    if option == "-setwebproxy"@ {
        Some(Verb::Web)
    } else if option == "-setwebproxystate"@ {
        Some(Verb::WebState)
    } else if option == "-setsecurewebproxy"@ {
        Some(Verb::SecureWeb)
    } else if option == "-setsecurewebproxystate"@ {
        Some(Verb::SecureWebState)
    } else if option == "-setsocksfirewallproxy"@ {
        Some(Verb::Socks)
    } else if option == "-setsocksfirewallproxystate"@ {
        Some(Verb::SocksState)
    } else if option == "-setproxyautodiscovery"@ {
        Some(Verb::Discovery)
    } else if option == "-setautoproxyurl"@ {
        Some(Verb::Script)
    } else if option == "-setautoproxystate"@ {
        Some(Verb::ScriptState)
    } else if option == "-setproxybypassdomains"@ {
        Some(Verb::Bypass)
    } else if option == "-setdnsservers"@ {
        Some(Verb::Dns)
    } else if option == "-setsearchdomains"@ {
        Some(Verb::Search)
    } else {
        None
    }
}

/// The entries that a list stands for: the word `Empty` stands for none.
pub open spec fn entries(items: Seq<Seq<char>>) -> Seq<Seq<char>> {
    if items == seq!["Empty"@] {
        Seq::empty()
    } else {
        items
    }
}

/// A service after a command. Setting a proxy turns it on.
pub open spec fn changed(s: ServiceState, verb: Verb, args: Seq<Seq<char>>) -> ServiceState {
    let on = args[0] == "on"@;
    let proxy = ProxyState { enabled: true, server: args[0], port: args[1] };
    match verb {
        Verb::Web => ServiceState { web: proxy, ..s },
        Verb::WebState => ServiceState { web: ProxyState { enabled: on, ..s.web }, ..s },
        Verb::SecureWeb => ServiceState { secure_web: proxy, ..s },
        Verb::SecureWebState => ServiceState {
            secure_web: ProxyState { enabled: on, ..s.secure_web },
            ..s
        },
        Verb::Socks => ServiceState { socks: proxy, ..s },
        Verb::SocksState => ServiceState { socks: ProxyState { enabled: on, ..s.socks }, ..s },
        Verb::Discovery => ServiceState { discovery: on, ..s },
        Verb::Script => ServiceState { script: args[0], script_enabled: true, ..s },
        Verb::ScriptState => ServiceState { script_enabled: on, ..s },
        Verb::Bypass => ServiceState { bypass: entries(args), ..s },
        Verb::Dns => ServiceState { dns_servers: entries(args), ..s },
        Verb::Search => ServiceState { search_domains: entries(args), ..s },
    }
}

/// The services after a command: an option, a service and the rest.
pub open spec fn obeyed(
    all: Map<Seq<char>, ServiceState>,
    command: Seq<Seq<char>>,
) -> Map<Seq<char>, ServiceState> {
    match verb_of(command[0]) {
        Some(verb) => all.insert(command[1], changed(all[command[1]], verb, command.skip(2))),
        None => all,
    }
}

/// The services after some commands, in order.
pub open spec fn all_obeyed(
    all: Map<Seq<char>, ServiceState>,
    commands: Seq<Seq<Seq<char>>>,
) -> Map<Seq<char>, ServiceState>
    decreases commands.len(),
{
    if commands.len() == 0 {
        all
    } else {
        obeyed(all_obeyed(all, commands.drop_last()), commands.last())
    }
}

proof fn lemma_verbs()
    ensures
        verb_of("-setwebproxy"@) == Some(Verb::Web),
        verb_of("-setwebproxystate"@) == Some(Verb::WebState),
        verb_of("-setsecurewebproxy"@) == Some(Verb::SecureWeb),
        verb_of("-setsecurewebproxystate"@) == Some(Verb::SecureWebState),
        verb_of("-setsocksfirewallproxy"@) == Some(Verb::Socks),
        verb_of("-setsocksfirewallproxystate"@) == Some(Verb::SocksState),
        verb_of("-setproxyautodiscovery"@) == Some(Verb::Discovery),
        verb_of("-setautoproxyurl"@) == Some(Verb::Script),
        verb_of("-setautoproxystate"@) == Some(Verb::ScriptState),
        verb_of("-setproxybypassdomains"@) == Some(Verb::Bypass),
        verb_of("-setdnsservers"@) == Some(Verb::Dns),
        verb_of("-setsearchdomains"@) == Some(Verb::Search),
        "on"@ != "off"@,
{
    reveal_strlit("-setwebproxy");
    reveal_strlit("-setwebproxystate");
    reveal_strlit("-setsecurewebproxy");
    reveal_strlit("-setsecurewebproxystate");
    reveal_strlit("-setsocksfirewallproxy");
    reveal_strlit("-setsocksfirewallproxystate");
    reveal_strlit("-setproxyautodiscovery");
    reveal_strlit("-setautoproxyurl");
    reveal_strlit("-setautoproxystate");
    reveal_strlit("-setproxybypassdomains");
    reveal_strlit("-setdnsservers");
    reveal_strlit("-setsearchdomains");
    reveal_strlit("on");
    reveal_strlit("off");
    assert("-setwebproxy"@.len() == 12);
    assert("-setwebproxystate"@.len() == 17);
    assert("-setsecurewebproxy"@.len() == 18);
    assert("-setsecurewebproxystate"@.len() == 23);
    assert("-setsocksfirewallproxy"@.len() == 22);
    assert("-setsocksfirewallproxystate"@.len() == 27);
    assert("-setproxyautodiscovery"@.len() == 22);
    assert("-setautoproxyurl"@.len() == 16);
    assert("-setautoproxystate"@.len() == 18);
    assert("-setproxybypassdomains"@.len() == 22);
    assert("-setdnsservers"@.len() == 14);
    assert("-setsearchdomains"@.len() == 17);
    assert("on"@.len() == 2);
    assert("off"@.len() == 3);
    assert("-setwebproxystate"@[4] != "-setsearchdomains"@[4]);
    assert("-setsecurewebproxy"@[4] != "-setautoproxystate"@[4]);
    assert("-setsocksfirewallproxy"@[4] != "-setproxyautodiscovery"@[4]);
    assert("-setsocksfirewallproxy"@[4] != "-setproxybypassdomains"@[4]);
    assert("-setproxyautodiscovery"@[9] != "-setproxybypassdomains"@[9]);
}

proof fn lemma_obeyed_add(
    all: Map<Seq<char>, ServiceState>,
    a: Seq<Seq<Seq<char>>>,
    b: Seq<Seq<Seq<char>>>,
)
    ensures
        all_obeyed(all, a + b) == all_obeyed(all_obeyed(all, a), b),
    decreases b.len(),
{
    if b.len() == 0 {
        assert(a + b =~= a);
    } else {
        assert((a + b).drop_last() =~= a + b.drop_last());
        assert((a + b).last() == b.last());
        lemma_obeyed_add(all, a, b.drop_last());
    }
}

proof fn lemma_one(all: Map<Seq<char>, ServiceState>, command: Seq<Seq<char>>)
    ensures
        all_obeyed(all, seq![command]) == obeyed(all, command),
{
    assert(seq![command].drop_last() =~= Seq::<Seq<Seq<char>>>::empty());
    assert(all_obeyed(all, Seq::<Seq<Seq<char>>>::empty()) == all);
}

proof fn lemma_two(
    all: Map<Seq<char>, ServiceState>,
    first: Seq<Seq<char>>,
    second: Seq<Seq<char>>,
)
    ensures
        all_obeyed(all, seq![first, second]) == obeyed(obeyed(all, first), second),
{
    assert(seq![first, second] =~= seq![first] + seq![second]);
    lemma_obeyed_add(all, seq![first], seq![second]);
    lemma_one(all, first);
    lemma_one(obeyed(all, first), second);
}

// ---------------------------------------------------------------------------
// Restoring
// ---------------------------------------------------------------------------

/// Whether a proxy is as it was saved: on with its server and port, or off.
pub open spec fn proxy_as_saved(now: ProxyState, saved: ProxySetting) -> bool {
    if saved.enabled && saved.server is Some && saved.port is Some {
        now == (ProxyState {
            enabled: true,
            server: saved.server->0@,
            port: number::decimal(saved.port->0 as nat),
        })
    } else {
        !now.enabled
    }
}

/// Whether the proxies of a service are as they were saved.
pub open spec fn as_saved(now: ServiceState, saved: SystemProxyServiceSnapshot) -> bool {
    &&& proxy_as_saved(now.web, saved.web_proxy)
    &&& proxy_as_saved(now.secure_web, saved.secure_web_proxy)
    &&& proxy_as_saved(now.socks, saved.socks_proxy)
    &&& now.discovery == saved.proxy_auto_discovery_enabled
    &&& now.script_enabled == (has_script(saved.auto_proxy_url) && saved.auto_proxy_url.enabled)
    &&& has_script(saved.auto_proxy_url) ==> now.script == saved.auto_proxy_url.url->0@
    &&& now.bypass == entries(text::strings(saved.bypass_domains@))
}

/// A proxy that was put back: on with what it was, or off.
spec fn put_back(now: ProxyState, saved: ProxySetting) -> ProxyState {
    if saved.enabled && saved.server is Some && saved.port is Some {
        ProxyState {
            enabled: true,
            server: saved.server->0@,
            port: number::decimal(saved.port->0 as nat),
        }
    } else {
        ProxyState { enabled: false, ..now }
    }
}

/// Whether a service has a saved script that can be put back.
pub open spec fn has_script(saved: AutoProxyUrl) -> bool {
    saved.url is Some && saved.url->0@.len() > 0
}

/// A service whose proxies were put back.
spec fn restored(now: ServiceState, saved: SystemProxyServiceSnapshot) -> ServiceState {
    ServiceState {
        web: put_back(now.web, saved.web_proxy),
        secure_web: put_back(now.secure_web, saved.secure_web_proxy),
        socks: put_back(now.socks, saved.socks_proxy),
        discovery: saved.proxy_auto_discovery_enabled,
        script: if has_script(saved.auto_proxy_url) {
            saved.auto_proxy_url.url->0@
        } else {
            now.script
        },
        script_enabled: has_script(saved.auto_proxy_url) && saved.auto_proxy_url.enabled,
        bypass: entries(text::strings(saved.bypass_domains@)),
        ..now
    }
}

proof fn lemma_list(
    all: Map<Seq<char>, ServiceState>,
    option: Seq<char>,
    service: Seq<char>,
    items: Seq<Seq<char>>,
    verb: Verb,
)
    requires
        verb_of(option) == Some(verb),
        verb == Verb::Bypass || verb == Verb::Dns || verb == Verb::Search,
    ensures
        obeyed(all, networksetup::list_command(option, service, items)) == all.insert(
            service,
            changed(all[service], verb, entries(items)),
        ),
{
    let command = networksetup::list_command(option, service, items);
    assert(command[0] == option);
    assert(command[1] == service);
    if items.len() == 0 {
        assert(command.skip(2) =~= seq!["Empty"@]);
    } else {
        assert(command.skip(2) =~= items);
    }
    lemma_entries_twice(items);
    if items.len() == 0 {
        assert(entries(seq!["Empty"@]) =~= entries(items));
    }
}

/// What the commands for one proxy make of a service.
spec fn with_proxy(s: ServiceState, verb: Verb, proxy: ProxyState) -> ServiceState {
    match verb {
        Verb::Web => ServiceState { web: proxy, ..s },
        Verb::SecureWeb => ServiceState { secure_web: proxy, ..s },
        _ => ServiceState { socks: proxy, ..s },
    }
}

spec fn proxy_in(s: ServiceState, verb: Verb) -> ProxyState {
    match verb {
        Verb::Web => s.web,
        Verb::SecureWeb => s.secure_web,
        _ => s.socks,
    }
}

spec fn state_verb(verb: Verb) -> Verb {
    match verb {
        Verb::Web => Verb::WebState,
        Verb::SecureWeb => Verb::SecureWebState,
        _ => Verb::SocksState,
    }
}

proof fn lemma_set_proxy(
    all: Map<Seq<char>, ServiceState>,
    service: Seq<char>,
    set: Seq<char>,
    state: Seq<char>,
    verb: Verb,
    server: Seq<char>,
    port: Seq<char>,
)
    requires
        verb == Verb::Web || verb == Verb::SecureWeb || verb == Verb::Socks,
        verb_of(set) == Some(verb),
        verb_of(state) == Some(state_verb(verb)),
    ensures
        obeyed(
            obeyed(all, seq![set, service, server, port, "off"@]),
            seq![state, service, "on"@],
        ) == all.insert(
            service,
            with_proxy(all[service], verb, ProxyState { enabled: true, server, port }),
        ),
{
    let first = seq![set, service, server, port, "off"@];
    let second = seq![state, service, "on"@];
    assert(first.skip(2) =~= seq![server, port, "off"@]);
    assert(second.skip(2) =~= seq!["on"@]);
    let mid = obeyed(all, first);
    assert(mid == all.insert(service, changed(all[service], verb, first.skip(2))));
    assert(obeyed(mid, second) =~= all.insert(
        service,
        with_proxy(all[service], verb, ProxyState { enabled: true, server, port }),
    ));
}

proof fn lemma_setting(
    all: Map<Seq<char>, ServiceState>,
    service: Seq<char>,
    set: Seq<char>,
    state: Seq<char>,
    verb: Verb,
    saved: ProxySetting,
)
    requires
        verb == Verb::Web || verb == Verb::SecureWeb || verb == Verb::Socks,
        verb_of(set) == Some(verb),
        verb_of(state) == Some(state_verb(verb)),
    ensures
        all_obeyed(all, networksetup::setting_commands(service, set, state, saved)) == all.insert(
            service,
            with_proxy(
                all[service],
                verb,
                put_back(proxy_in(all[service], verb), saved),
            ),
        ),
{
    lemma_verbs();
    if saved.enabled && saved.server is Some && saved.port is Some {
        let server = saved.server->0@;
        let port = number::decimal(saved.port->0 as nat);
        lemma_two(
            all,
            seq![set, service, server, port, "off"@],
            seq![state, service, "on"@],
        );
        lemma_set_proxy(all, service, set, state, verb, server, port);
    } else {
        let command = seq![state, service, "off"@];
        lemma_one(all, command);
        assert(command.skip(2) =~= seq!["off"@]);
    }
}

proof fn lemma_script(
    all: Map<Seq<char>, ServiceState>,
    service: Seq<char>,
    saved: AutoProxyUrl,
)
    ensures
        all_obeyed(all, networksetup::script_commands(service, saved)) == all.insert(
            service,
            ServiceState {
                script: if has_script(saved) {
                    saved.url->0@
                } else {
                    all[service].script
                },
                script_enabled: has_script(saved) && saved.enabled,
                ..all[service]
            },
        ),
{
    lemma_verbs();
    if has_script(saved) {
        let first = seq!["-setautoproxyurl"@, service, saved.url->0@];
        let second = seq![
            "-setautoproxystate"@,
            service,
            networksetup::switch(saved.enabled),
        ];
        lemma_two(all, first, second);
        assert(first.skip(2) =~= seq![saved.url->0@]);
        assert(second.skip(2) =~= seq![networksetup::switch(saved.enabled)]);
        let mid = obeyed(all, first);
        assert(mid == all.insert(service, changed(all[service], Verb::Script, first.skip(2))));
        assert(obeyed(mid, second) =~= all.insert(
            service,
            ServiceState {
                script: saved.url->0@,
                script_enabled: saved.enabled,
                ..all[service]
            },
        ));
    } else {
        let command = seq!["-setautoproxystate"@, service, "off"@];
        lemma_one(all, command);
        assert(command.skip(2) =~= seq!["off"@]);
    }
}

proof fn lemma_restore_service(
    all: Map<Seq<char>, ServiceState>,
    saved: SystemProxyServiceSnapshot,
)
    ensures
        all_obeyed(all, networksetup::restore_commands(saved)) == all.insert(
            saved.name@,
            restored(all[saved.name@], saved),
        ),
{
    lemma_verbs();
    let name = saved.name@;
    let web = networksetup::setting_commands(
        name,
        "-setwebproxy"@,
        "-setwebproxystate"@,
        saved.web_proxy,
    );
    let secure = networksetup::setting_commands(
        name,
        "-setsecurewebproxy"@,
        "-setsecurewebproxystate"@,
        saved.secure_web_proxy,
    );
    let socks = networksetup::setting_commands(
        name,
        "-setsocksfirewallproxy"@,
        "-setsocksfirewallproxystate"@,
        saved.socks_proxy,
    );
    let find = seq![
        "-setproxyautodiscovery"@,
        name,
        networksetup::switch(saved.proxy_auto_discovery_enabled),
    ];
    let script = networksetup::script_commands(name, saved.auto_proxy_url);
    let bypass = networksetup::list_command(
        "-setproxybypassdomains"@,
        name,
        text::strings(saved.bypass_domains@),
    );
    let s1 = all_obeyed(all, web);
    lemma_setting(
        all,
        name,
        "-setwebproxy"@,
        "-setwebproxystate"@,
        Verb::Web,
        saved.web_proxy,
    );
    let s2 = all_obeyed(s1, secure);
    lemma_obeyed_add(all, web, secure);
    lemma_setting(
        s1,
        name,
        "-setsecurewebproxy"@,
        "-setsecurewebproxystate"@,
        Verb::SecureWeb,
        saved.secure_web_proxy,
    );
    let s3 = all_obeyed(s2, socks);
    lemma_obeyed_add(all, web + secure, socks);
    lemma_setting(
        s2,
        name,
        "-setsocksfirewallproxy"@,
        "-setsocksfirewallproxystate"@,
        Verb::Socks,
        saved.socks_proxy,
    );
    let s4 = obeyed(s3, find);
    lemma_obeyed_add(all, web + secure + socks, seq![find]);
    lemma_one(s3, find);
    assert(find.skip(2) =~= seq![networksetup::switch(saved.proxy_auto_discovery_enabled)]);
    let s5 = all_obeyed(s4, script);
    lemma_obeyed_add(all, web + secure + socks + seq![find], script);
    lemma_script(s4, name, saved.auto_proxy_url);
    lemma_obeyed_add(all, web + secure + socks + seq![find] + script, seq![bypass]);
    lemma_one(s5, bypass);
    lemma_list(
        s5,
        "-setproxybypassdomains"@,
        name,
        text::strings(saved.bypass_domains@),
        Verb::Bypass,
    );
    lemma_entries_twice(text::strings(saved.bypass_domains@));
    assert(obeyed(s5, bypass) =~= all.insert(name, restored(all[name], saved)));
}

proof fn lemma_entries_twice(items: Seq<Seq<char>>)
    ensures
        entries(entries(items)) == entries(items),
{
    if items == seq!["Empty"@] {
        assert(Seq::<Seq<char>>::empty().len() != seq!["Empty"@].len());
    }
}

/// Restoring the system proxy brings the saved proxies of every service that
/// still exists back, whatever the settings are in between. A proxy that was
/// off is turned off; a service that is listed twice is as it was listed last.
pub proof fn a_restore_brings_the_saved_proxies_back(
    all: Map<Seq<char>, ServiceState>,
    services: Seq<SystemProxyServiceSnapshot>,
    existing: Seq<Seq<char>>,
    i: int,
)
    requires
        0 <= i < services.len(),
        existing.contains(services[i].name@),
        forall|j: int| i < j < services.len() ==> (#[trigger] services[j]).name@ != services[i].name@,
    ensures
        as_saved(
            all_obeyed(
                all,
                networksetup::all_restore_commands(services, existing),
            )[services[i].name@],
            services[i],
        ),
    decreases services.len(),
{
    let fewer = services.drop_last();
    let last = services.last();
    let before = all_obeyed(all, networksetup::all_restore_commands(fewer, existing));
    if existing.contains(last.name@) {
        lemma_obeyed_add(
            all,
            networksetup::all_restore_commands(fewer, existing),
            networksetup::restore_commands(last),
        );
        lemma_restore_service(before, last);
    }
    if i < services.len() - 1 {
        assert forall|j: int| i < j < fewer.len() implies (#[trigger] fewer[j]).name@
            != fewer[i].name@ by {
            assert(services[j].name@ != services[i].name@);
        }
        assert(services[services.len() - 1].name@ != services[i].name@);
        a_restore_brings_the_saved_proxies_back(all, fewer, existing, i);
        assert(fewer[i] == services[i]);
    }
}

// ---------------------------------------------------------------------------
// Setting
// ---------------------------------------------------------------------------

/// Whether a service goes through a proxy and nowhere else.
pub open spec fn goes_through(
    s: ServiceState,
    host: Seq<char>,
    port: Seq<char>,
    exceptions: Seq<Seq<char>>,
) -> bool {
    let proxy = ProxyState { enabled: true, server: host, port };
    &&& s.web == proxy
    &&& s.secure_web == proxy
    &&& s.socks == proxy
    &&& !s.discovery
    &&& !s.script_enabled
    &&& s.bypass == entries(exceptions)
}

/// A service that was told to go through a proxy.
spec fn directed(
    s: ServiceState,
    host: Seq<char>,
    port: Seq<char>,
    exceptions: Seq<Seq<char>>,
) -> ServiceState {
    let proxy = ProxyState { enabled: true, server: host, port };
    ServiceState {
        web: proxy,
        secure_web: proxy,
        socks: proxy,
        discovery: false,
        script_enabled: false,
        bypass: entries(exceptions),
        ..s
    }
}

proof fn lemma_direct_service(
    all: Map<Seq<char>, ServiceState>,
    name: Seq<char>,
    host: Seq<char>,
    port: Seq<char>,
    exceptions: Seq<Seq<char>>,
)
    ensures
        all_obeyed(all, networksetup::proxy_commands(name, host, port, exceptions)) == all.insert(
            name,
            directed(all[name], host, port, exceptions),
        ),
{
    lemma_verbs();
    let c = networksetup::proxy_commands(name, host, port, exceptions);
    let web = seq![c[0], c[1]];
    let secure = seq![c[2], c[3]];
    let socks = seq![c[4], c[5]];
    let rest = seq![c[6], c[7]];
    let last = seq![c[8]];
    assert(c =~= web + secure + socks + rest + last);
    let s1 = all_obeyed(all, web);
    lemma_two(all, c[0], c[1]);
    lemma_set_proxy(all, name, "-setwebproxy"@, "-setwebproxystate"@, Verb::Web, host, port);
    let s2 = all_obeyed(s1, secure);
    lemma_obeyed_add(all, web, secure);
    lemma_two(s1, c[2], c[3]);
    lemma_set_proxy(
        s1,
        name,
        "-setsecurewebproxy"@,
        "-setsecurewebproxystate"@,
        Verb::SecureWeb,
        host,
        port,
    );
    let s3 = all_obeyed(s2, socks);
    lemma_obeyed_add(all, web + secure, socks);
    lemma_two(s2, c[4], c[5]);
    lemma_set_proxy(
        s2,
        name,
        "-setsocksfirewallproxy"@,
        "-setsocksfirewallproxystate"@,
        Verb::Socks,
        host,
        port,
    );
    let s4 = all_obeyed(s3, rest);
    lemma_obeyed_add(all, web + secure + socks, rest);
    lemma_two(s3, c[6], c[7]);
    assert(c[6].skip(2) =~= seq!["off"@]);
    assert(c[7].skip(2) =~= seq!["off"@]);
    lemma_obeyed_add(all, web + secure + socks + rest, last);
    lemma_one(s4, c[8]);
    assert(c[8].skip(2) =~= exceptions);
    assert(obeyed(s4, c[8]) =~= all.insert(name, directed(all[name], host, port, exceptions)));
}

/// Setting the system proxy sends every service through it and nowhere else,
/// but for the exceptions.
pub proof fn setting_the_proxy_reaches_every_service(
    all: Map<Seq<char>, ServiceState>,
    services: Seq<SystemProxyServiceSnapshot>,
    host: Seq<char>,
    port: Seq<char>,
    exceptions: Seq<Seq<char>>,
    i: int,
)
    requires
        0 <= i < services.len(),
    ensures
        goes_through(
            all_obeyed(
                all,
                networksetup::all_proxy_commands(services, host, port, exceptions),
            )[services[i].name@],
            host,
            port,
            exceptions,
        ),
    decreases services.len(),
{
    let fewer = services.drop_last();
    let last = services.last();
    let start = networksetup::all_proxy_commands(fewer, host, port, exceptions);
    let before = all_obeyed(all, start);
    lemma_obeyed_add(
        all,
        start,
        networksetup::proxy_commands(last.name@, host, port, exceptions),
    );
    lemma_direct_service(before, last.name@, host, port, exceptions);
    if services[i].name@ != last.name@ {
        setting_the_proxy_reaches_every_service(all, fewer, host, port, exceptions, i);
        assert(fewer[i] == services[i]);
    }
}

/// The system while its proxy is set: the settings of its services, the
/// snapshot that is saved, and the one that is worked with.
pub struct ProxyWorld {
    pub settings: Map<Seq<char>, ServiceState>,
    pub saved: Option<Seq<SystemProxyServiceSnapshot>>,
    pub snapshot: Seq<SystemProxyServiceSnapshot>,
}

/// The proxy that is set.
pub struct WantedProxy {
    pub host: Seq<char>,
    pub port: Seq<char>,
    pub exceptions: Seq<Seq<char>>,
}

/// The system after a step of setting the proxy went well, where the services
/// answer with these settings.
pub open spec fn proxy_effect(
    w: ProxyWorld,
    step: ProxyStep,
    answers: Seq<SystemProxyServiceSnapshot>,
    proxy: WantedProxy,
) -> ProxyWorld {
    match step {
        ProxyStep::ReadSnapshot => ProxyWorld { snapshot: w.saved->0, ..w },
        ProxyStep::TakeSnapshot => ProxyWorld { snapshot: answers, ..w },
        ProxyStep::SaveSnapshot => ProxyWorld { saved: Some(w.snapshot), ..w },
        ProxyStep::RunCommands => ProxyWorld {
            settings: all_obeyed(
                w.settings,
                networksetup::all_proxy_commands(
                    w.snapshot,
                    proxy.host,
                    proxy.port,
                    proxy.exceptions,
                ),
            ),
            ..w
        },
        ProxyStep::RemoveSnapshot => ProxyWorld { saved: None, ..w },
        _ => w,
    }
}

/// The system after some steps of setting the proxy went well, in order.
pub open spec fn after_proxy_steps(
    w: ProxyWorld,
    steps: Seq<ProxyStep>,
    answers: Seq<SystemProxyServiceSnapshot>,
    proxy: WantedProxy,
) -> ProxyWorld
    decreases steps.len(),
{
    if steps.len() == 0 {
        w
    } else {
        after_proxy_steps(
            proxy_effect(w, steps[0], answers, proxy),
            steps.drop_first(),
            answers,
            proxy,
        )
    }
}

/// Setting the proxy keeps the snapshot that is saved, or saves one where there
/// is none, so the settings from before the helper are never written over by
/// its own. Every service of that snapshot goes through the proxy afterwards.
pub proof fn setting_the_proxy_keeps_what_was_saved(
    w: ProxyWorld,
    answers: Seq<SystemProxyServiceSnapshot>,
    proxy: WantedProxy,
    i: int,
)
    requires
        ({
            let services = if w.saved is Some {
                w.saved->0
            } else {
                answers
            };
            0 <= i < services.len()
        }),
    ensures
        ({
            let services = if w.saved is Some {
                w.saved->0
            } else {
                answers
            };
            let end = after_proxy_steps(
                w,
                networksetup::proxy_path(ProxyFlow::Apply, w.saved is Some),
                answers,
                proxy,
            );
            &&& end.saved == Some(services)
            &&& end.snapshot == services
            &&& goes_through(
                end.settings[services[i].name@],
                proxy.host,
                proxy.port,
                proxy.exceptions,
            )
        }),
{
    let path = networksetup::proxy_path(ProxyFlow::Apply, w.saved is Some);
    let services = if w.saved is Some {
        w.saved->0
    } else {
        answers
    };
    let p1 = path.drop_first();
    let p2 = p1.drop_first();
    let p3 = p2.drop_first();
    let p4 = p3.drop_first();
    assert(path[0] == ProxyStep::Validate && p1[0] == ProxyStep::ListServices);
    let ready = ProxyWorld { saved: Some(services), snapshot: services, ..w };
    let done = proxy_effect(ready, ProxyStep::RunCommands, answers, proxy);
    assert(after_proxy_steps(done, Seq::empty(), answers, proxy) == done);
    if w.saved is Some {
        assert(p3 =~= seq![ProxyStep::RunCommands]);
        assert(p4 =~= Seq::<ProxyStep>::empty());
        assert(after_proxy_steps(ready, p3, answers, proxy) == done);
        assert(after_proxy_steps(w, p2, answers, proxy) == done);
    } else {
        let taken = ProxyWorld { snapshot: answers, ..w };
        assert(p4 =~= seq![ProxyStep::RunCommands]);
        assert(p4.drop_first() =~= Seq::<ProxyStep>::empty());
        assert(after_proxy_steps(ready, p4, answers, proxy) == done);
        assert(after_proxy_steps(taken, p3, answers, proxy) == done);
        assert(after_proxy_steps(w, p2, answers, proxy) == done);
    }
    assert(after_proxy_steps(w, p1, answers, proxy) == done);
    setting_the_proxy_reaches_every_service(
        w.settings,
        services,
        proxy.host,
        proxy.port,
        proxy.exceptions,
        i,
    );
}

// ---------------------------------------------------------------------------
// Name servers
// ---------------------------------------------------------------------------

/// Restoring the name servers brings the saved servers and search domains of
/// every service that still exists back, whatever they are in between. A
/// service that is listed twice is as it was listed last.
pub proof fn a_restore_brings_the_saved_servers_back(
    all: Map<Seq<char>, ServiceState>,
    services: Seq<TunNetworkServiceSnapshot>,
    existing: Seq<Seq<char>>,
    i: int,
)
    requires
        0 <= i < services.len(),
        existing.contains(services[i].name@),
        forall|j: int| i < j < services.len() ==> (#[trigger] services[j]).name@ != services[i].name@,
    ensures
        ({
            let after = all_obeyed(all, networksetup::network_commands(services, existing));
            let s = after[services[i].name@];
            &&& s.dns_servers == entries(text::strings(services[i].dns_servers@))
            &&& s.search_domains == entries(text::strings(services[i].search_domains@))
        }),
    decreases services.len(),
{
    lemma_verbs();
    let fewer = services.drop_last();
    let last = services.last();
    let start = networksetup::network_commands(fewer, existing);
    let before = all_obeyed(all, start);
    if existing.contains(last.name@) {
        let dns = networksetup::list_command(
            "-setdnsservers"@,
            last.name@,
            text::strings(last.dns_servers@),
        );
        let search = networksetup::list_command(
            "-setsearchdomains"@,
            last.name@,
            text::strings(last.search_domains@),
        );
        assert(networksetup::network_commands(services, existing) =~= start + seq![dns, search]);
        lemma_obeyed_add(all, start, seq![dns, search]);
        lemma_two(before, dns, search);
        lemma_list(
            before,
            "-setdnsservers"@,
            last.name@,
            text::strings(last.dns_servers@),
            Verb::Dns,
        );
        lemma_list(
            obeyed(before, dns),
            "-setsearchdomains"@,
            last.name@,
            text::strings(last.search_domains@),
            Verb::Search,
        );
        lemma_entries_twice(text::strings(last.dns_servers@));
        lemma_entries_twice(text::strings(last.search_domains@));
    }
    if i < services.len() - 1 {
        assert forall|j: int| i < j < fewer.len() implies (#[trigger] fewer[j]).name@
            != fewer[i].name@ by {
            assert(services[j].name@ != services[i].name@);
        }
        assert(services[services.len() - 1].name@ != services[i].name@);
        a_restore_brings_the_saved_servers_back(all, fewer, existing, i);
        assert(fewer[i] == services[i]);
    }
}

/// Clearing the name servers leaves every service that is named without any,
/// and without search domains.
pub proof fn a_reset_clears_the_name_servers_of_every_service(
    all: Map<Seq<char>, ServiceState>,
    services: Seq<Seq<char>>,
    i: int,
)
    requires
        0 <= i < services.len(),
    ensures
        ({
            let s = all_obeyed(all, networksetup::reset_commands(services))[services[i]];
            s.dns_servers.len() == 0 && s.search_domains.len() == 0
        }),
    decreases services.len(),
{
    lemma_verbs();
    let fewer = services.drop_last();
    let last = services.last();
    let start = networksetup::reset_commands(fewer);
    let before = all_obeyed(all, start);
    let dns = seq!["-setdnsservers"@, last, "Empty"@];
    let search = seq!["-setsearchdomains"@, last, "Empty"@];
    assert(networksetup::reset_commands(services) =~= start + seq![dns, search]);
    lemma_obeyed_add(all, start, seq![dns, search]);
    lemma_two(before, dns, search);
    assert(dns.skip(2) =~= seq!["Empty"@]);
    assert(search.skip(2) =~= seq!["Empty"@]);
    assert(entries(seq!["Empty"@]).len() == 0);
    if services[i] != last {
        a_reset_clears_the_name_servers_of_every_service(all, fewer, i);
        assert(fewer[i] == services[i]);
    }
}

// ---------------------------------------------------------------------------
// From an answer to the settings
// ---------------------------------------------------------------------------

/// Whether an answer of the tool shows a proxy that is on, with this server and
/// this port.
pub open spec fn shows_proxy(output: Seq<char>, server: Seq<char>, port: u16) -> bool {
    let lines = text::lines(output);
    exists|i: int, j: int, k: int|
        {
            &&& #[trigger] networksetup::is_last_of(lines, i, "Enabled"@)
            &&& #[trigger] networksetup::is_last_of(lines, j, "Server"@)
            &&& #[trigger] networksetup::is_last_of(lines, k, "Port"@)
            &&& lines[i] == "Enabled"@ + seq![':'] + (seq![' '] + "Yes"@)
            &&& lines[j] == "Server"@ + seq![':'] + (seq![' '] + server)
            &&& lines[k] == "Port"@ + seq![':'] + (seq![' '] + number::decimal(port as nat))
        }
}

/// A proxy that was on when the services were asked is, after a restore, on
/// again, with exactly the server and the port that the tool showed, whichever
/// port that was and whatever the settings are in between.
pub proof fn a_proxy_that_was_shown_is_set_again(
    all: Map<Seq<char>, ServiceState>,
    services: Seq<SystemProxyServiceSnapshot>,
    existing: Seq<Seq<char>>,
    i: int,
    output: Seq<char>,
    server: Seq<char>,
    port: u16,
)
    requires
        0 <= i < services.len(),
        existing.contains(services[i].name@),
        forall|j: int| i < j < services.len() ==> (#[trigger] services[j]).name@ != services[i].name@,
        shows_proxy(output, server, port),
        server.len() > 0,
        !text::is_white(server[0]) && !text::is_white(server.last()),
        server != "(null)"@,
    ensures
        ({
            let now = all_obeyed(
                all,
                networksetup::all_restore_commands(services, existing),
            )[services[i].name@];
            &&& networksetup::describes_proxy(output, services[i].web_proxy) ==> now.web.enabled
                && now.web.server == server && now.web.port == number::decimal(port as nat)
            &&& networksetup::describes_proxy(output, services[i].secure_web_proxy)
                ==> now.secure_web.enabled && now.secure_web.server == server
                && now.secure_web.port == number::decimal(port as nat)
            &&& networksetup::describes_proxy(output, services[i].socks_proxy)
                ==> now.socks.enabled && now.socks.server == server && now.socks.port
                == number::decimal(port as nat)
        }),
{
    let lines = text::lines(output);
    let (a, b, c) = choose|a: int, b: int, c: int|
        {
            &&& #[trigger] networksetup::is_last_of(lines, a, "Enabled"@)
            &&& #[trigger] networksetup::is_last_of(lines, b, "Server"@)
            &&& #[trigger] networksetup::is_last_of(lines, c, "Port"@)
            &&& lines[a] == "Enabled"@ + seq![':'] + (seq![' '] + "Yes"@)
            &&& lines[b] == "Server"@ + seq![':'] + (seq![' '] + server)
            &&& lines[c] == "Port"@ + seq![':'] + (seq![' '] + number::decimal(port as nat))
        };
    reveal_strlit("Yes");
    text::ordinary_white_space(' ');
    text::ordinary_white_space('Y');
    text::ordinary_white_space('s');
    a_restore_brings_the_saved_proxies_back(all, services, existing, i);
    let saved = services[i];
    if networksetup::describes_proxy(output, saved.web_proxy) {
        networksetup::an_answer_is_read_as_it_is_written(
            output, saved.web_proxy, c, seq![' '], port as nat, b, server, a, "Yes"@,
        );
    }
    if networksetup::describes_proxy(output, saved.secure_web_proxy) {
        networksetup::an_answer_is_read_as_it_is_written(
            output, saved.secure_web_proxy, c, seq![' '], port as nat, b, server, a, "Yes"@,
        );
    }
    if networksetup::describes_proxy(output, saved.socks_proxy) {
        networksetup::an_answer_is_read_as_it_is_written(
            output, saved.socks_proxy, c, seq![' '], port as nat, b, server, a, "Yes"@,
        );
    }
}

/// After a restore each proxy of a service that still exists is on if and only
/// if it was on with a server and a port, and then has those; discovery, the
/// script and the exceptions are what they were. The name servers stay as they
/// are.
pub proof fn what_was_saved_is_what_is_set(
    all: Map<Seq<char>, ServiceState>,
    services: Seq<SystemProxyServiceSnapshot>,
    existing: Seq<Seq<char>>,
    i: int,
)
    requires
        0 <= i < services.len(),
        existing.contains(services[i].name@),
        forall|j: int| i < j < services.len() ==> (#[trigger] services[j]).name@ != services[i].name@,
    ensures
        ({
            let saved = services[i];
            let now = all_obeyed(
                all,
                networksetup::all_restore_commands(services, existing),
            )[saved.name@];
            &&& now.web.enabled <==> saved.web_proxy.enabled && saved.web_proxy.server is Some
                && saved.web_proxy.port is Some
            &&& now.secure_web.enabled <==> saved.secure_web_proxy.enabled
                && saved.secure_web_proxy.server is Some && saved.secure_web_proxy.port is Some
            &&& now.socks.enabled <==> saved.socks_proxy.enabled && saved.socks_proxy.server is Some
                && saved.socks_proxy.port is Some
            &&& now.web.enabled ==> now.web.server == saved.web_proxy.server->0@ && now.web.port
                == number::decimal(saved.web_proxy.port->0 as nat)
            &&& now.secure_web.enabled ==> now.secure_web.server
                == saved.secure_web_proxy.server->0@ && now.secure_web.port == number::decimal(
                saved.secure_web_proxy.port->0 as nat,
            )
            &&& now.socks.enabled ==> now.socks.server == saved.socks_proxy.server->0@
                && now.socks.port == number::decimal(saved.socks_proxy.port->0 as nat)
            &&& now.discovery == saved.proxy_auto_discovery_enabled
            &&& saved.auto_proxy_url.url is Some && saved.auto_proxy_url.url->0@.len() > 0
                ==> now.script == saved.auto_proxy_url.url->0@ && now.script_enabled
                == saved.auto_proxy_url.enabled
            &&& saved.auto_proxy_url.url is None ==> !now.script_enabled
            &&& saved.bypass_domains@.len() == 0 ==> now.bypass.len() == 0
            &&& saved.bypass_domains@.len() > 1 ==> now.bypass == text::strings(
                saved.bypass_domains@,
            )
            &&& saved.bypass_domains@.len() == 1 && saved.bypass_domains@[0]@ != "Empty"@
                ==> now.bypass == text::strings(saved.bypass_domains@)
            &&& now.dns_servers == all[saved.name@].dns_servers
            &&& now.search_domains == all[saved.name@].search_domains
        }),
{
    let saved = services[i];
    a_restore_brings_the_saved_proxies_back(all, services, existing, i);
    lemma_restore_leaves(all, services, existing, saved.name@);
    let domains = text::strings(saved.bypass_domains@);
    assert(domains.len() == saved.bypass_domains@.len());
    if domains == seq!["Empty"@] {
        assert(domains.len() == 1);
        assert(domains[0] == "Empty"@);
    }
}

proof fn lemma_restore_leaves(
    all: Map<Seq<char>, ServiceState>,
    services: Seq<SystemProxyServiceSnapshot>,
    existing: Seq<Seq<char>>,
    name: Seq<char>,
)
    ensures
        ({
            let after = all_obeyed(all, networksetup::all_restore_commands(services, existing));
            &&& after[name].dns_servers == all[name].dns_servers
            &&& after[name].search_domains == all[name].search_domains
            &&& (!existing.contains(name) || forall|j: int|
                0 <= j < services.len() ==> (#[trigger] services[j]).name@ != name) ==> after[name]
                == all[name]
        }),
    decreases services.len(),
{
    if services.len() > 0 {
        let fewer = services.drop_last();
        let last = services.last();
        lemma_restore_leaves(all, fewer, existing, name);
        let before = all_obeyed(all, networksetup::all_restore_commands(fewer, existing));
        if existing.contains(last.name@) {
            lemma_obeyed_add(
                all,
                networksetup::all_restore_commands(fewer, existing),
                networksetup::restore_commands(last),
            );
            lemma_restore_service(before, last);
        }
        if forall|j: int| 0 <= j < services.len() ==> (#[trigger] services[j]).name@ != name {
            assert(services[services.len() - 1].name@ != name);
            assert forall|j: int| 0 <= j < fewer.len() implies (#[trigger] fewer[j]).name@
                != name by {
                assert(services[j].name@ != name);
            }
        }
    }
}

/// A restore touches no service that was not saved, and none that is gone.
pub proof fn a_restore_touches_nothing_else(
    all: Map<Seq<char>, ServiceState>,
    services: Seq<SystemProxyServiceSnapshot>,
    existing: Seq<Seq<char>>,
    name: Seq<char>,
)
    requires
        !existing.contains(name) || forall|j: int|
            0 <= j < services.len() ==> (#[trigger] services[j]).name@ != name,
    ensures
        all_obeyed(all, networksetup::all_restore_commands(services, existing))[name] == all[name],
{
    lemma_restore_leaves(all, services, existing, name);
}

/// Once the proxy is set, the web, the secure web and the other connections of
/// every service go to its host and port, nothing else leads around it, and
/// this machine, the server and whatever any service excepted before is still
/// excepted.
pub proof fn every_service_is_led_through_the_proxy(
    all: Map<Seq<char>, ServiceState>,
    services: Seq<SystemProxyServiceSnapshot>,
    host: Seq<char>,
    port: u16,
    server_host: Seq<char>,
    exceptions: Seq<Seq<char>>,
    i: int,
    j: int,
    d: int,
)
    requires
        0 <= i < services.len(),
        crate::sorted::sorted_set_of(
            exceptions,
            networksetup::all_exceptions(server_host, services),
        ),
    ensures
        ({
            let s = all_obeyed(
                all,
                networksetup::all_proxy_commands(
                    services,
                    host,
                    number::decimal(port as nat),
                    exceptions,
                ),
            )[services[i].name@];
            &&& s.web.enabled && s.web.server == host && s.web.port == number::decimal(port as nat)
            &&& s.secure_web.enabled && s.secure_web.server == host && s.secure_web.port
                == number::decimal(port as nat)
            &&& s.socks.enabled && s.socks.server == host && s.socks.port == number::decimal(
                port as nat,
            )
            &&& !s.discovery
            &&& !s.script_enabled
            &&& s.bypass.contains("localhost"@)
            &&& s.bypass.contains("127.0.0.1"@)
            &&& s.bypass.contains("::1"@)
            &&& text::trim(server_host).len() > 0 ==> s.bypass.contains(text::trim(server_host))
            &&& 0 <= j < services.len() && 0 <= d < services[j].bypass_domains@.len() && text::trim(
                services[j].bypass_domains@[d]@,
            ).len() > 0 ==> s.bypass.contains(text::trim(services[j].bypass_domains@[d]@))
        }),
{
    setting_the_proxy_reaches_every_service(
        all,
        services,
        host,
        number::decimal(port as nat),
        exceptions,
        i,
    );
    networksetup::every_exception_is_kept(exceptions, server_host, services, j, d);
    reveal_strlit("Empty");
    reveal_strlit("localhost");
    assert("Empty"@.len() == 5 && "localhost"@.len() == 9);
    if exceptions == seq!["Empty"@] {
        assert(exceptions.contains("localhost"@));
        assert(false);
    }
}

} // verus!
