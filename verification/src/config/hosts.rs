//! `/etc/hosts`: one address and its names per line.

use crate::notation::{parse_ip_chars, spec_parse_ip};
use crate::text::{
    before_char, chars_of, is_ws, lemma_find_char, lemma_lines_append, lemma_trim_untouched, lines,
    split_lines, split_words, string_of, string_views, strip_comment, trim, trim_chars, views, words,
};
use crate::types::{hosts_views, HostsEntry, HostsModel};
use vstd::prelude::*;

verus! {

/// The entry one line gives: after the comment (from `#`) is removed, the
/// first word must be an address and at least one name must follow; other
/// lines give nothing.
pub open spec fn hosts_line(line: Seq<char>) -> Option<HostsModel> {
    let w = words(trim(before_char(line, '#')));
    if w.len() < 2 {
        None
    } else {
        match spec_parse_ip(w[0]) {
            None => None,
            Some(ip) => Some(HostsModel { ip: ip, names: w.drop_first() }),
        }
    }
}

/// The entries of the lines from index `i` on.
pub open spec fn hosts_from(ls: Seq<Seq<char>>, i: int) -> Seq<HostsModel>
    decreases ls.len() - i,
{
    if i < 0 || i >= ls.len() {
        Seq::empty()
    } else {
        match hosts_line(ls[i]) {
            Some(e) => seq![e] + hosts_from(ls, i + 1),
            None => hosts_from(ls, i + 1),
        }
    }
}

/// The entries of `/etc/hosts` with text `content`, in file order.
pub open spec fn spec_hosts(content: Seq<char>) -> Seq<HostsModel> {
    hosts_from(lines(content), 0)
}

/// The entries one line gives: none or one.
pub open spec fn line_entries(line: Seq<char>) -> Seq<HostsModel> {
    match hosts_line(line) {
        Some(e) => seq![e],
        None => Seq::empty(),
    }
}

proof fn lemma_hosts_from_step(ls: Seq<Seq<char>>, i: int)
    requires
        0 <= i < ls.len(),
    ensures
        hosts_from(ls, i) == line_entries(ls[i]) + hosts_from(ls, i + 1),
{
    match hosts_line(ls[i]) {
        Some(e) => {},
        None => {
            assert(Seq::<HostsModel>::empty() + hosts_from(ls, i + 1) =~= hosts_from(ls, i + 1));
        },
    }
}

#[verifier::rlimit(30)]
proof fn lemma_hosts_from_push(ls: Seq<Seq<char>>, l: Seq<char>, i: int)
    requires
        0 <= i <= ls.len(),
    ensures
        hosts_from(ls.push(l), i) == hosts_from(ls, i) + line_entries(l),
    decreases ls.len() - i,
{
    if i < ls.len() {
        assert(ls.push(l)[i] == ls[i]);
        lemma_hosts_from_push(ls, l, i + 1);
        lemma_hosts_from_step(ls, i);
        lemma_hosts_from_step(ls.push(l), i);
        assert(line_entries(ls[i]) + hosts_from(ls, i + 1) + line_entries(l) =~= line_entries(ls[i]) + (
        hosts_from(ls, i + 1) + line_entries(l)));
    } else {
        assert(ls.push(l)[i] == l);
        lemma_hosts_from_step(ls.push(l), i);
        assert(hosts_from(ls, i) == Seq::<HostsModel>::empty());
        assert(hosts_from(ls.push(l), i + 1) == Seq::<HostsModel>::empty());
        assert(line_entries(l) + Seq::<HostsModel>::empty() =~= Seq::<HostsModel>::empty() + line_entries(l));
    }
}

/// A line that gives an address and at least one name adds one entry: that
/// address, with exactly the words after it as its names, spelled as they
/// are written.
pub proof fn hosts_line_keeps_names_as_written(c: Seq<char>, l: Seq<char>)
    requires
        c.len() == 0 || c.last() == '\n',
        l.len() > 0,
        forall|i: int| 0 <= i < l.len() ==> l[i] != '\n' && l[i] != '#',
        !is_ws(l[0]),
        !is_ws(l.last()),
        words(l).len() >= 2,
        spec_parse_ip(words(l)[0]) is Some,
    ensures
        spec_hosts(c + l) == spec_hosts(c).push(
            HostsModel { ip: spec_parse_ip(words(l)[0]).unwrap(), names: words(l).drop_first() },
        ),
{
    lemma_lines_append(c, l);
    lemma_hosts_from_push(lines(c), l, 0);
    lemma_find_char(l, '#', l.len() as int);
    assert(before_char(l, '#') =~= l);
    lemma_trim_untouched(l);
}

/// Parses /etc/hosts, given as `content`, into entries; malformed lines
/// are skipped. Callers filter by queried name.
pub fn parse_hosts(content: &str) -> (r: Vec<HostsEntry>)
    ensures
        hosts_views(r@) == spec_hosts(content@),
{
    let text = chars_of(content);
    let all_lines = split_lines(&text);
    let mut entries: Vec<HostsEntry> = Vec::new();
    let mut i: usize = 0;
    assert(hosts_views(entries@) + hosts_from(views(all_lines@), 0) =~= hosts_from(views(all_lines@), 0));
    while i < all_lines.len()
        invariant
            i <= all_lines@.len(),
            views(all_lines@) == lines(content@),
            spec_hosts(content@) == hosts_views(entries@) + hosts_from(views(all_lines@), i as int),
        decreases all_lines@.len() - i,
    {
        let ghost ls = views(all_lines@);
        assert(ls[i as int] == all_lines@[i as int]@);
        let stripped = strip_comment(&all_lines[i]);
        let t = trim_chars(&stripped);
        let w = split_words(&t);
        let ghost wv = views(w@);
        if w.len() >= 2 {
            assert(wv[0] == w@[0]@);
            match parse_ip_chars(&w[0]) {
                Some(ip) => {
                    let mut names: Vec<String> = Vec::new();
                    let mut j: usize = 1;
                    while j < w.len()
                        invariant
                            1 <= j <= w@.len(),
                            wv == views(w@),
                            string_views(names@) == wv.subrange(1, j as int),
                        decreases w@.len() - j,
                    {
                        let ghost before = string_views(names@);
                        names.push(string_of(&w[j]));
                        assert(string_views(names@) =~= before.push(wv[j as int]));
                        assert(wv.subrange(1, j + 1) =~= wv.subrange(1, j as int).push(wv[j as int]));
                        j = j + 1;
                    }
                    assert(wv.subrange(1, w@.len() as int) =~= wv.drop_first());
                    let ghost before = hosts_views(entries@);
                    let entry = HostsEntry { ip, names };
                    let ghost ev = entry@;
                    entries.push(entry);
                    assert(hosts_views(entries@) =~= before.push(ev));
                    assert(before.push(ev) + hosts_from(ls, i + 1) =~= before + (seq![ev] + hosts_from(ls, i + 1)));
                },
                None => {},
            }
        }
        i = i + 1;
    }
    assert(hosts_views(entries@) + Seq::<HostsModel>::empty() =~= hosts_views(entries@));
    entries
}

} // verus!
