//! Scoped name resolution on macOS: one resolver file for each managed domain.
use crate::encoding;
use crate::encoding::write_strings;
use crate::error::{AtrError, AtrResult};
use crate::networksetup;
use crate::routes;
use crate::routes::read_list;
use crate::sorted;
use crate::sorted::sort_dedup;
use crate::text;
use crate::text::{
    chars_of, has_char, is_text, lines_of, same, string_of, to_lower, trimmed, trimmed_class,
    without_prefix, CharClass,
};
use vstd::prelude::*;
use vstd::string::*;

verus! {

/// A domain without surrounding dots and white space, in lower case, and
/// without a leading wildcard.
pub open spec fn bare_domain(domain: Seq<char>) -> Seq<char> {
    let low = text::lower(text::trim_class(domain, CharClass::DotOrWhite));
    match text::strip_prefix(low, "*."@) {
        Some(rest) => rest,
        None => low,
    }
}

/// The domain that gets a resolver file. What cannot name a file, and the
/// domain of multicast lookups, get none.
pub open spec fn resolver_domain(domain: Seq<char>) -> Option<Seq<char>> {
    let d = bare_domain(domain);
    if d.len() == 0 || d.contains('/') || d.contains(':') || d.contains('*') || d == "local"@ {
        None
    } else {
        Some(d)
    }
}

/// The domains that get resolver files.
pub open spec fn resolver_domains(domains: Seq<Seq<char>>) -> Seq<Seq<char>> {
    networksetup::picked(domains, |d: Seq<char>| resolver_domain(d))
}

fn normalized_domain(domain: &str) -> (r: Option<String>)
    ensures
        text::text_of(r) == resolver_domain(domain@),
{
    let cs = chars_of(domain);
    let low = to_lower(trimmed_class(cs.as_slice(), CharClass::DotOrWhite));
    let bare = match without_prefix(low.as_slice(), "*.") {
        Some(rest) => rest,
        None => low.as_slice(),
    };
    if bare.len() == 0 || has_char(bare, '/') || has_char(bare, ':') || has_char(bare, '*')
        || is_text(bare, "local") {
        None
    } else {
        Some(string_of(bare))
    }
}

/// The domains that get resolver files, sorted, each once.
pub fn normalized_resolver_domains(domains: &Vec<String>) -> (r: Vec<String>)
    ensures
        sorted::sorted_set_of(text::strings(r@), resolver_domains(text::strings(domains@))),
{
    let ghost rule = |d: Seq<char>| resolver_domain(d);
    let ghost all = text::strings(domains@);
    let mut v: Vec<String> = Vec::new();
    assert(text::strings(v@) =~= networksetup::picked(all.take(0), rule));
    for i in 0..domains.len()
        invariant
            rule == (|d: Seq<char>| resolver_domain(d)),
            all == text::strings(domains@),
            text::strings(v@) == networksetup::picked(all.take(i as int), rule),
    {
        let ghost before = text::strings(v@);
        let ghost one = all.take(i + 1);
        assert(one.drop_last() =~= all.take(i as int));
        assert(one.last() == domains@[i as int]@);
        match normalized_domain(domains[i].as_str()) {
            Some(d) => {
                v.push(d);
                assert(text::strings(v@) =~= before.push(d@));
            },
            None => {},
        }
    }
    assert(all.take(domains.len() as int) =~= all);
    sort_dedup(v)
}

/// The contents of a resolver file.
pub fn resolver_file(server: &str) -> (r: String)
    ensures
        r@ == "nameserver "@ + server@ + "\n"@,
{
    let mut r = "nameserver ".to_owned();
    r.append(server);
    r.append("\n");
    r
}

/// Whether the name of a saved resolver file can be removed without leaving
/// the directory.
pub open spec fn stays_inside(domain: Seq<char>) -> bool {
    !domain.contains('/') && domain != "."@ && domain != ".."@
}

/// Whether a saved resolver file may be removed.
pub fn removable_resolver(domain: &str) -> (r: bool)
    ensures
        r == stays_inside(domain@),
{
    let cs = chars_of(domain);
    let d = cs.as_slice();
    !has_char(d, '/') && !is_text(d, ".") && !is_text(d, "..")
}

/// The names of a list that stay in the directory.
pub open spec fn removable(names: Seq<Seq<char>>) -> Seq<Seq<char>>
    decreases names.len(),
{
    if names.len() == 0 {
        Seq::empty()
    } else if stays_inside(names.last()) {
        removable(names.drop_last()).push(names.last())
    } else {
        removable(names.drop_last())
    }
}

/// The state file of the resolver files that were written: their names can be
/// read from it again.
pub fn resolver_state(names: &Vec<String>) -> (r: AtrResult<String>)
    ensures
        r is Ok,
        encoding::json_strings(r->Ok_0@) == Some(text::strings(names@)),
{
    match write_strings(names) {
        Ok(s) => Ok(s),
        Err(e) => Err(AtrError::from(e)),
    }
}

/// The resolver files to remove, from the state file that lists them.
pub fn cleanup_scoped_dns_resolvers(saved: &Option<String>) -> (r: Vec<String>)
    ensures
        text::strings(r@) == removable(routes::listed(text::text_of(*saved))),
{
    let list = read_list(saved);
    let ghost all = text::strings(list@);
    let mut r: Vec<String> = Vec::new();
    assert(text::strings(r@) =~= removable(all.take(0)));
    for i in 0..list.len()
        invariant
            all == text::strings(list@),
            text::strings(r@) == removable(all.take(i as int)),
    {
        let ghost one = all.take(i + 1);
        let ghost before = text::strings(r@);
        assert(one.drop_last() =~= all.take(i as int));
        assert(one.last() == list@[i as int]@);
        if removable_resolver(list[i].as_str()) {
            r.push(list[i].clone());
            assert(text::strings(r@) =~= before.push(list@[i as int]@));
        }
    }
    assert(all.take(list.len() as int) =~= all);
    r
}

proof fn lemma_all_removable(names: Seq<Seq<char>>)
    requires
        forall|i: int| 0 <= i < names.len() ==> stays_inside(#[trigger] names[i]),
    ensures
        removable(names) == names,
    decreases names.len(),
{
    if names.len() > 0 {
        assert(stays_inside(names[names.len() - 1]));
        lemma_all_removable(names.drop_last());
        assert(names.drop_last().push(names.last()) =~= names);
    }
}

proof fn lemma_resolver_domain_of(domains: Seq<Seq<char>>, t: Seq<char>)
    requires
        resolver_domains(domains).contains(t),
    ensures
        stays_inside(t),
    decreases domains.len(),
{
    let fewer = domains.drop_last();
    let head = resolver_domains(fewer);
    let all = resolver_domains(domains);
    let k = choose|k: int| 0 <= k < all.len() && all[k] == t;
    if k < head.len() {
        assert(head[k] == t);
        lemma_resolver_domain_of(fewer, t);
    } else {
        installed_resolvers_can_be_removed(domains.last());
    }
}

/// Every resolver file that was written and noted is removed when the tunnel
/// is cleaned up.
pub proof fn what_was_written_is_removed(
    names: Seq<Seq<char>>,
    domains: Seq<Seq<char>>,
    state: Seq<char>,
)
    requires
        sorted::sorted_set_of(names, resolver_domains(domains)),
        encoding::json_strings(state) == Some(names),
    ensures
        removable(routes::listed(Some(state))) == names,
{
    assert forall|i: int| 0 <= i < names.len() implies stays_inside(#[trigger] names[i]) by {
        assert(names.contains(names[i]));
        lemma_resolver_domain_of(domains, names[i]);
    }
    lemma_all_removable(names);
}

/// What gets a resolver file has a name that stays in the directory, so it can
/// be removed again.
pub proof fn installed_resolvers_can_be_removed(domain: Seq<char>)
    requires
        resolver_domain(domain) is Some,
    ensures
        stays_inside(resolver_domain(domain)->0),
{
    let cut = text::trim_class(domain, CharClass::DotOrWhite);
    let low = text::lower(cut);
    let d = bare_domain(domain);
    text::lemma_trim_end(text::trim_start(domain, CharClass::DotOrWhite), CharClass::DotOrWhite);
    reveal_strlit("*.");
    reveal_strlit(".");
    reveal_strlit("..");
    assert(d.last() == low.last());
    assert(low.last() == text::lower_char(cut.last()));
    assert(d.last() != '.');
    assert("."@.last() == '.');
    assert(".."@.last() == '.');
}

/// Whether a resolver file names a server.
pub open spec fn names_server(contents: Seq<char>, server: Seq<char>) -> bool {
    let expected = "nameserver "@ + text::trim(server);
    exists|i: int|
        0 <= i < text::lines(contents).len() && text::trim(#[trigger] text::lines(contents)[i])
            == expected
}

/// Whether a resolver file names a server.
pub fn resolver_names_server(contents: &str, server: &str) -> (r: bool)
    ensures
        r == names_server(contents@, server@),
{
    let server_chars = chars_of(server);
    let mut expected = chars_of("nameserver ");
    let mut tail = vstd::slice::slice_to_vec(trimmed(server_chars.as_slice()));
    expected.append(&mut tail);
    assert(expected@ =~= "nameserver "@ + text::trim(server@));
    let cs = chars_of(contents);
    let lines = lines_of(cs.as_slice());
    let ghost all = text::texts(lines@);
    for i in 0..lines.len()
        invariant
            all == text::texts(lines@),
            all == text::lines(contents@),
            expected@ == "nameserver "@ + text::trim(server@),
            forall|k: int| 0 <= k < i ==> text::trim(#[trigger] all[k]) != expected@,
    {
        assert(all[i as int] == lines@[i as int]@);
        if same(trimmed(lines[i].as_slice()), expected.as_slice()) {
            assert(text::trim(text::lines(contents@)[i as int]) == expected@);
            return true;
        }
    }
    false
}

/// A resolver file that was written for a server names that server, so it is
/// found to be ready. The server is a word that nothing stands in front of.
pub proof fn a_written_resolver_names_its_server(server: Seq<char>)
    requires
        server.len() > 0,
        !text::is_white(server[0]),
        !text::trim(server).contains('\n'),
    ensures
        names_server("nameserver "@ + server + "\n"@, server),
{
    reveal_strlit("nameserver ");
    reveal_strlit("\n");
    let head = "nameserver "@;
    let file = head + server + "\n"@;
    let t = text::trim(server);
    let n = t.len() as int;
    assert(text::trim_start(server, CharClass::White) == server);
    text::lemma_trim_end_cuts(server, CharClass::White);
    text::lemma_trim_end(server, CharClass::White);
    if n == 0 {
        assert(CharClass::White.holds(server[0]));
    }
    let i = text::first_index(file, '\n');
    text::lemma_first_index(file, '\n');
    assert(file[file.len() - 1] == '\n');
    let line = file.take(i);
    assert(i >= head.len() + n) by {
        if i < head.len() {
            assert(file[i] == head[i]);
        } else if i < head.len() + n {
            assert(file[i] == server[i - head.len()]);
            assert(t[i - head.len()] == server[i - head.len()]);
            assert(t.contains('\n'));
        }
    }
    let cut = text::strip_cr(line);
    let m = head.len() + n;
    assert(line[m - 1] == t[n - 1]);
    assert(!text::is_white(t[n - 1]));
    assert forall|k: int| m <= k < line.len() implies text::is_white(#[trigger] line[k]) by {
        assert(line[k] == server[k - head.len()]);
    }
    assert(cut.len() >= m);
    assert(cut[0] == head[0]);
    assert(!text::is_white('n'));
    assert(text::trim_start(cut, CharClass::White) == cut);
    text::lemma_trim_end_is(cut, CharClass::White, m);
    assert(cut.take(m) =~= head + t);
    let all = text::lines(file);
    assert(all[0] == cut);
    assert(text::trim(all[0]) == head + text::trim(server));
}

/// Whether every resolver file is there and names the server. The files are
/// given in the order of the domains; a file that cannot be read counts as
/// missing.
pub fn scoped_dns_ready(files: &Vec<Option<String>>, server: &str) -> (r: bool)
    ensures
        r == forall|i: int|
            0 <= i < files@.len() ==> (#[trigger] files@[i]) is Some && names_server(
                files@[i]->0@,
                server@,
            ),
{
    for i in 0..files.len()
        invariant
            forall|k: int|
                0 <= k < i ==> (#[trigger] files@[k]) is Some && names_server(
                    files@[k]->0@,
                    server@,
                ),
    {
        let ready = match &files[i] {
            Some(contents) => resolver_names_server(contents.as_str(), server),
            None => false,
        };
        if !ready {
            assert(!(files@[i as int] is Some && names_server(files@[i as int]->0@, server@)));
            return false;
        }
    }
    true
}

/// A domain in lower case that could name a file gets a resolver file of its
/// own name, also where it is written with a wildcard or with dots and white
/// space around it.
pub proof fn a_plain_domain_gets_its_own_file(a: Seq<char>, d: Seq<char>, b: Seq<char>)
    requires
        d.len() > 0,
        text::lower(d) == d,
        !CharClass::DotOrWhite.holds(d[0]) && !CharClass::DotOrWhite.holds(d.last()),
        !d.contains('/') && !d.contains(':') && !d.contains('*'),
        d != "local"@,
        forall|k: int| 0 <= k < a.len() ==> CharClass::DotOrWhite.holds(#[trigger] a[k]),
        forall|k: int| 0 <= k < b.len() ==> CharClass::DotOrWhite.holds(#[trigger] b[k]),
    ensures
        resolver_domain(d) == Some(d),
        resolver_domain(a + d + b) == Some(d),
        resolver_domain(a + (seq!['*', '.'] + d) + b) == Some(d),
{
    reveal_strlit("*.");
    let none = Seq::<char>::empty();
    text::trimming_undoes_padding(a, d, b, CharClass::DotOrWhite);
    text::trimming_undoes_padding(none, d, none, CharClass::DotOrWhite);
    assert(none + d + none =~= d);
    let wild = seq!['*', '.'] + d;
    assert(wild[0] == '*' && wild[wild.len() - 1] == d[d.len() - 1]);
    assert(!CharClass::DotOrWhite.holds('*'));
    text::trimming_undoes_padding(a, wild, b, CharClass::DotOrWhite);
    assert(text::lower(wild) =~= seq!['*', '.'] + text::lower(d)) by {
        assert forall|i: int| 0 <= i < wild.len() implies text::lower(wild)[i] == (seq!['*', '.']
            + text::lower(d))[i] by {
            text::lowering_moves_capitals_alone(wild, i);
            if i >= 2 {
                assert(wild[i] == d[i - 2]);
                text::lowering_moves_capitals_alone(d, i - 2);
            }
        }
    }
    assert(wild.take(2) =~= "*."@);
    assert(wild.skip(2) =~= d);
    if d.len() >= 2 {
        assert(d.take(2)[0] == d[0]);
    }
    if d[0] == '*' {
        assert(d.contains(d[0]));
    }
    assert("*."@[0] == '*');
}

/// The case of a domain does not matter, and neither the dots and the white
/// space around it.
pub proof fn a_domain_is_known_in_any_case(d: Seq<char>, e: Seq<char>)
    requires
        text::lower(text::trim_class(d, CharClass::DotOrWhite)) == text::lower(
            text::trim_class(e, CharClass::DotOrWhite),
        ),
    ensures
        resolver_domain(d) == resolver_domain(e),
{
}

/// No resolver file has a name that leads elsewhere or that is not in lower
/// case, and the domain of multicast lookups gets none.
pub proof fn a_resolver_file_has_a_plain_name(domain: Seq<char>)
    requires
        resolver_domain(domain) is Some,
    ensures
        ({
            let d = resolver_domain(domain)->0;
            &&& d.len() > 0
            &&& d != "local"@
            &&& !d.contains('/') && !d.contains(':') && !d.contains('*')
            &&& forall|i: int| 0 <= i < d.len() ==> !(65 <= #[trigger] d[i] as int <= 90)
        }),
{
    let cut = text::trim_class(domain, CharClass::DotOrWhite);
    let low = text::lower(cut);
    let d = resolver_domain(domain)->0;
    reveal_strlit("*.");
    assert forall|i: int| 0 <= i < d.len() implies !(65 <= #[trigger] d[i] as int <= 90) by {
        let k = if low.len() == d.len() { i } else { i + 2 };
        assert(d[i] == low[k]);
        text::lowering_moves_capitals_alone(cut, k);
    }
}

/// Every domain that can get a resolver file gets one, and no other file is
/// written.
pub proof fn every_domain_gets_its_file(names: Seq<Seq<char>>, domains: Seq<Seq<char>>, i: int)
    requires
        sorted::sorted_set_of(names, resolver_domains(domains)),
    ensures
        0 <= i < domains.len() && resolver_domain(domains[i]) is Some ==> names.contains(
            resolver_domain(domains[i])->0,
        ),
        forall|x: Seq<char>| #[trigger]
            names.contains(x) ==> exists|k: int|
                0 <= k < domains.len() && resolver_domain(#[trigger] domains[k]) == Some(x),
{
    let rule = |d: Seq<char>| resolver_domain(d);
    if 0 <= i < domains.len() && resolver_domain(domains[i]) is Some {
        assert(rule(domains[i]) is Some);
        networksetup::lines_are_picked_one_by_one(domains, Seq::empty(), rule);
    }
    assert forall|x: Seq<char>| #[trigger] names.contains(x) implies exists|k: int|
        0 <= k < domains.len() && resolver_domain(#[trigger] domains[k]) == Some(x) by {
        assert(resolver_domains(domains).contains(x));
        lemma_domain_of(domains, x);
    }
}

proof fn lemma_domain_of(domains: Seq<Seq<char>>, x: Seq<char>)
    requires
        resolver_domains(domains).contains(x),
    ensures
        exists|k: int|
            0 <= k < domains.len() && resolver_domain(#[trigger] domains[k]) == Some(x),
    decreases domains.len(),
{
    let fewer = domains.drop_last();
    let head = resolver_domains(fewer);
    let all = resolver_domains(domains);
    let k = choose|k: int| 0 <= k < all.len() && all[k] == x;
    if k < head.len() {
        assert(head[k] == x);
        lemma_domain_of(fewer, x);
        let i = choose|i: int|
            0 <= i < fewer.len() && resolver_domain(#[trigger] fewer[i]) == Some(x);
        assert(domains[i] == fewer[i]);
    } else {
        assert(resolver_domain(domains[domains.len() - 1]) == Some(x));
    }
}

/// Of the resolver files that are noted, those are removed whose names stay in
/// the directory, and no others.
pub proof fn only_files_inside_are_removed(names: Seq<Seq<char>>, x: Seq<char>)
    ensures
        removable(names).contains(x) <==> names.contains(x) && !x.contains('/') && x != "."@ && x
            != ".."@,
    decreases names.len(),
{
    if names.len() > 0 {
        let fewer = names.drop_last();
        let head = removable(fewer);
        let all = removable(names);
        only_files_inside_are_removed(fewer, x);
        if all.contains(x) {
            let k = choose|k: int| 0 <= k < all.len() && all[k] == x;
            if k < head.len() {
                assert(head[k] == x);
                let i = choose|i: int| 0 <= i < fewer.len() && fewer[i] == x;
                assert(names[i] == x);
            } else {
                assert(names[names.len() - 1] == x);
            }
        }
        if names.contains(x) && !x.contains('/') && x != "."@ && x != ".."@ {
            let i = choose|i: int| 0 <= i < names.len() && names[i] == x;
            if i < fewer.len() {
                assert(fewer[i] == x);
                let k = choose|k: int| 0 <= k < head.len() && head[k] == x;
                assert(all[k] == x);
            } else {
                assert(all[head.len() as int] == x);
            }
        }
    }
}

/// A file names a server by a line of its own, whatever white space stands
/// around the line and around the server; a file without such a line does not.
pub proof fn a_line_of_its_own_names_the_server(
    contents: Seq<char>,
    i: int,
    a: Seq<char>,
    b: Seq<char>,
    server: Seq<char>,
)
    requires
        0 <= i < text::lines(contents).len(),
        server.len() > 0,
        !text::is_white(server[0]) && !text::is_white(server.last()),
        forall|k: int| 0 <= k < a.len() ==> text::is_white(#[trigger] a[k]),
        forall|k: int| 0 <= k < b.len() ==> text::is_white(#[trigger] b[k]),
    ensures
        text::lines(contents)[i] == a + ("nameserver "@ + server) + b ==> names_server(
            contents,
            server,
        ) && names_server(contents, a + server + b),
        names_server(contents, server) ==> exists|k: int|
            0 <= k < text::lines(contents).len() && text::trim(
                #[trigger] text::lines(contents)[k],
            ) == "nameserver "@ + server,
{
    reveal_strlit("nameserver ");
    let t = "nameserver "@ + server;
    assert(t[0] == 'n' && t[t.len() - 1] == server[server.len() - 1]);
    assert forall|k: int| 0 <= k < a.len() implies CharClass::White.holds(#[trigger] a[k]) by {
        assert(text::is_white(a[k]));
    }
    assert forall|k: int| 0 <= k < b.len() implies CharClass::White.holds(#[trigger] b[k]) by {
        assert(text::is_white(b[k]));
    }
    text::trimming_undoes_padding(a, t, b, CharClass::White);
    text::trimming_undoes_padding(a, server, b, CharClass::White);
    text::a_trimmed_text_stays(server);
}

} // verus!
