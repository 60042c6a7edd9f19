//! `/etc/resolv.conf`: nameservers, search domains, `ndots`, and whether
//! the file only points at the systemd-resolved stub.

use crate::ip::IpAddr;
use crate::notation::{parse_ip_chars, spec_parse_ip};
use crate::text::{
    chars_of, copy_range, has_prefix, is_text, is_ws, lemma_lines_append, lemma_trim_untouched,
    lemma_word_len_bound, lines, parse_u32, spec_parse_u32, split_lines, split_words, starts_with,
    string_of, string_views, trim, trim_chars, views, word_len, words,
};
use crate::types::{ResolvConfig, ResolvModel};
use vstd::prelude::*;

verus! {

/// The systemd-resolved stub listener, 127.0.0.53.
pub open spec fn stub_address() -> IpAddr {
    IpAddr::V4(0x7F00_0035)
}

/// `ndots` after the `options` words `opts`, starting from `cur`: each
/// `ndots:N` sets it to N, or to 1 when N is not a number.
pub open spec fn ndots_after(opts: Seq<Seq<char>>, cur: u32) -> u32
    decreases opts.len(),
{
    if opts.len() == 0 {
        cur
    } else {
        let o = opts[0];
        let next = if has_prefix(o, "ndots:"@) {
            match spec_parse_u32(o.skip("ndots:"@.len() as int)) {
                Some(v) => v,
                None => 1,
            }
        } else {
            cur
        };
        ndots_after(opts.drop_first(), next)
    }
}

/// The effect of one line: blank lines and comments (`#` or `;`) change
/// nothing; `nameserver ADDR` adds ADDR when it is an address; `search` and
/// `domain` add their words; `options` may set `ndots`.
pub open spec fn resolv_line(line: Seq<char>, m: ResolvModel) -> ResolvModel {
    let t = trim(line);
    let w = words(t);
    if t.len() == 0 || t[0] == '#' || t[0] == ';' || w.len() == 0 {
        m
    } else if w[0] == "nameserver"@ {
        if w.len() > 1 && spec_parse_ip(w[1]) is Some {
            ResolvModel { nameservers: m.nameservers.push(spec_parse_ip(w[1]).unwrap()), ..m }
        } else {
            m
        }
    } else if w[0] == "search"@ || w[0] == "domain"@ {
        ResolvModel { search: m.search + w.drop_first(), ..m }
    } else if w[0] == "options"@ {
        ResolvModel { ndots: ndots_after(w.drop_first(), m.ndots), ..m }
    } else {
        m
    }
}

/// Applies the lines from index `i` on.
pub open spec fn resolv_from(ls: Seq<Seq<char>>, i: int, m: ResolvModel) -> ResolvModel
    decreases ls.len() - i,
{
    if i < 0 || i >= ls.len() {
        m
    } else {
        resolv_from(ls, i + 1, resolv_line(ls[i], m))
    }
}

/// What `/etc/resolv.conf` with text `content` configures. `ndots` is 1
/// unless set; the file is the systemd stub when 127.0.0.53 is among its
/// nameservers.
pub open spec fn spec_resolv_conf(content: Seq<char>) -> ResolvModel {
    let m = resolv_from(
        lines(content),
        0,
        ResolvModel { nameservers: Seq::empty(), search: Seq::empty(), ndots: 1, is_systemd_stub: false },
    );
    ResolvModel { is_systemd_stub: m.nameservers.contains(stub_address()), ..m }
}

proof fn lemma_resolv_from_push(ls: Seq<Seq<char>>, l: Seq<char>, i: int, m: ResolvModel)
    requires
        0 <= i <= ls.len(),
    ensures
        resolv_from(ls.push(l), i, m) == resolv_line(l, resolv_from(ls, i, m)),
    decreases ls.len() - i,
{
    if i < ls.len() {
        assert(ls.push(l)[i] == ls[i]);
        lemma_resolv_from_push(ls, l, i + 1, resolv_line(ls[i], m));
    } else {
        assert(ls.push(l)[i] == l);
        assert(resolv_from(ls.push(l), i + 1, resolv_line(l, m)) == resolv_line(l, m));
    }
}

/// Reading `c + l` is reading `c` and then the line `l`, for a line that
/// follows a complete text, holds no line break and has no whitespace at
/// either end.
proof fn lemma_resolv_last_line(c: Seq<char>, l: Seq<char>)
    requires
        c.len() == 0 || c.last() == '\n',
        l.len() > 0,
        forall|i: int| 0 <= i < l.len() ==> l[i] != '\n',
        !is_ws(l[0]),
        !is_ws(l.last()),
    ensures
        ({
            let init = ResolvModel {
                nameservers: Seq::empty(),
                search: Seq::empty(),
                ndots: 1,
                is_systemd_stub: false,
            };
            resolv_from(lines(c + l), 0, init) == resolv_line(l, resolv_from(lines(c), 0, init))
        }),
        trim(l) == l,
        words(l).len() > 0,
        words(l)[0][0] == l[0],
{
    let init = ResolvModel { nameservers: Seq::empty(), search: Seq::empty(), ndots: 1, is_systemd_stub: false };
    lemma_lines_append(c, l);
    lemma_resolv_from_push(lines(c), l, 0, init);
    lemma_trim_untouched(l);
    lemma_word_len_bound(l);
    assert(words(l) == seq![l.take(word_len(l) as int)] + words(l.skip(word_len(l) as int)));
}

/// A `search` or `domain` line adds every word after its keyword to the
/// search list, in order, and leaves the nameservers and `ndots` as they
/// were.
pub proof fn search_line_adds_all_its_domains(c: Seq<char>, l: Seq<char>)
    requires
        c.len() == 0 || c.last() == '\n',
        l.len() > 0,
        forall|i: int| 0 <= i < l.len() ==> l[i] != '\n',
        !is_ws(l[0]),
        !is_ws(l.last()),
        words(l)[0] == "search"@ || words(l)[0] == "domain"@,
    ensures
        spec_resolv_conf(c + l).search == spec_resolv_conf(c).search + words(l).drop_first(),
        spec_resolv_conf(c + l).nameservers == spec_resolv_conf(c).nameservers,
        spec_resolv_conf(c + l).ndots == spec_resolv_conf(c).ndots,
{
    lemma_resolv_last_line(c, l);
    reveal_strlit("search");
    reveal_strlit("domain");
    reveal_strlit("nameserver");
    assert(words(l)[0] != "nameserver"@);
}

/// A `nameserver` line whose next word is an address adds that address to
/// the nameservers, and leaves the search list and `ndots` as they were.
pub proof fn nameserver_line_adds_its_address(c: Seq<char>, l: Seq<char>)
    requires
        c.len() == 0 || c.last() == '\n',
        l.len() > 0,
        forall|i: int| 0 <= i < l.len() ==> l[i] != '\n',
        !is_ws(l[0]),
        !is_ws(l.last()),
        words(l)[0] == "nameserver"@,
        words(l).len() > 1,
        spec_parse_ip(words(l)[1]) is Some,
    ensures
        spec_resolv_conf(c + l).nameservers == spec_resolv_conf(c).nameservers.push(
            spec_parse_ip(words(l)[1]).unwrap(),
        ),
        spec_resolv_conf(c + l).search == spec_resolv_conf(c).search,
        spec_resolv_conf(c + l).ndots == spec_resolv_conf(c).ndots,
{
    lemma_resolv_last_line(c, l);
    reveal_strlit("nameserver");
}

/// Parses /etc/resolv.conf, given as `content`.
///
/// On most modern distros this file just points at 127.0.0.53, the
/// systemd-resolved stub listener; that IP is not "the DNS server", so the
/// result flags that case.
pub fn parse_resolv_conf(content: &str) -> (r: ResolvConfig)
    ensures
        r@ == spec_resolv_conf(content@),
{
    let text = chars_of(content);
    let all_lines = split_lines(&text);
    let ndots_prefix = chars_of("ndots:");
    let mut nameservers: Vec<IpAddr> = Vec::new();
    let mut search: Vec<String> = Vec::new();
    let mut ndots: u32 = 1;
    let mut i: usize = 0;
    let ghost init = ResolvModel { nameservers: Seq::empty(), search: Seq::empty(), ndots: 1, is_systemd_stub: false };
    assert(string_views(search@) =~= Seq::<Seq<char>>::empty());
    while i < all_lines.len()
        invariant
            i <= all_lines@.len(),
            views(all_lines@) == lines(content@),
            ndots_prefix@ == "ndots:"@,
            resolv_from(views(all_lines@), 0, init) == resolv_from(
                views(all_lines@),
                i as int,
                ResolvModel { nameservers: nameservers@, search: string_views(search@), ndots: ndots, is_systemd_stub: false },
            ),
        decreases all_lines@.len() - i,
    {
        let ghost ls = views(all_lines@);
        assert(ls[i as int] == all_lines@[i as int]@);
        let t = trim_chars(&all_lines[i]);
        let w = split_words(&t);
        let ghost wv = views(w@);
        if t.len() == 0 || t[0] == '#' || t[0] == ';' || w.len() == 0 {
        } else if is_text(&w[0], "nameserver") {
            if w.len() > 1 {
                match parse_ip_chars(&w[1]) {
                    Some(a) => {
                        nameservers.push(a);
                    },
                    None => {},
                }
            }
        } else if is_text(&w[0], "search") || is_text(&w[0], "domain") {
            let mut j: usize = 1;
            let ghost s0 = string_views(search@);
            while j < w.len()
                invariant
                    1 <= j <= w@.len(),
                    wv == views(w@),
                    string_views(search@) == s0 + wv.subrange(1, j as int),
                decreases w@.len() - j,
            {
                let ghost before = string_views(search@);
                search.push(string_of(&w[j]));
                assert(string_views(search@) =~= before.push(w@[j as int]@));
                assert(wv.subrange(1, j + 1) =~= wv.subrange(1, j as int).push(wv[j as int]));
                j = j + 1;
            }
            assert(wv.subrange(1, w@.len() as int) =~= wv.drop_first());
        } else if is_text(&w[0], "options") {
            let mut j: usize = 1;
            let ghost n0 = ndots;
            assert(wv.drop_first().skip(0) =~= wv.drop_first());
            while j < w.len()
                invariant
                    1 <= j <= w@.len(),
                    wv == views(w@),
                    ndots_prefix@ == "ndots:"@,
                    ndots_after(wv.drop_first(), n0) == ndots_after(wv.drop_first().skip(j - 1), ndots),
                decreases w@.len() - j,
            {
                let ghost rest = wv.drop_first().skip(j - 1);
                assert(rest[0] == w@[j as int]@);
                assert(rest.drop_first() =~= wv.drop_first().skip(j as int));
                if starts_with(&w[j], &ndots_prefix) {
                    let num = copy_range(&w[j], ndots_prefix.len(), w[j].len());
                    assert(num@ =~= w@[j as int]@.skip("ndots:"@.len() as int));
                    ndots = match parse_u32(&num) {
                        Some(v) => v,
                        None => 1,
                    };
                }
                j = j + 1;
            }
            assert(wv.drop_first().skip(w@.len() - 1) =~= Seq::<Seq<char>>::empty());
        }
        i = i + 1;
    }
    let mut stub = false;
    let mut k: usize = 0;
    while k < nameservers.len()
        invariant
            k <= nameservers@.len(),
            stub == nameservers@.subrange(0, k as int).contains(stub_address()),
        decreases nameservers@.len() - k,
    {
        let ghost before = nameservers@.subrange(0, k as int);
        assert(nameservers@.subrange(0, k + 1) =~= before.push(nameservers@[k as int]));
        if nameservers[k] == IpAddr::V4(0x7F00_0035) {
            assert(nameservers@.subrange(0, k + 1)[k as int] == stub_address());
            stub = true;
        } else {
            proof {
                let ext = nameservers@.subrange(0, k + 1);
                if ext.contains(stub_address()) {
                    let m = choose|m: int| 0 <= m < ext.len() && ext[m] == stub_address();
                    assert(before[m] == stub_address());
                }
                if before.contains(stub_address()) {
                    let m = choose|m: int| 0 <= m < before.len() && before[m] == stub_address();
                    assert(ext[m] == stub_address());
                }
            }
        }
        k = k + 1;
    }
    assert(nameservers@.subrange(0, nameservers@.len() as int) =~= nameservers@);
    ResolvConfig { nameservers, search, ndots, is_systemd_stub: stub }
}

} // verus!
