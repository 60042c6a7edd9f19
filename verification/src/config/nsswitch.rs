//! `/etc/nsswitch.conf`: the `hosts:` line, its sources and their
//! `[STATUS=action]` criteria.

use super::{is_parse_error, ConfigError};
use crate::text::{
    before_char, chars_of, find_char, find_from, has_prefix, is_text, is_whitespace, is_ws,
    lemma_find_char_bound, lemma_word_len, lemma_word_len_bound, lines, lower, push_chars,
    split_lines, starts_with, string_of, strip_comment, to_lower, to_upper, trim, trim_chars,
    upper, views, word_len, copy_range,
};
use crate::types::{
    entry_views, EntryModel, NssAction, NssCriterion, NssEntry, NssSource, NssStatus,
    NsswitchConfig, SourceModel,
};
use crate::sim::first_match;
use vstd::prelude::*;

verus! {

/// The source a `hosts:` token names; a token gai has no handling for is
/// kept as `Other` with its text.
pub open spec fn spec_source(t: Seq<char>) -> SourceModel {
    if t == "files"@ {
        SourceModel::Files
    } else if t == "dns"@ {
        SourceModel::Dns
    } else if t == "mdns4_minimal"@ {
        SourceModel::Mdns4Minimal
    } else if t == "mdns6_minimal"@ {
        SourceModel::Mdns6Minimal
    } else if t == "mdns4"@ {
        SourceModel::Mdns4
    } else if t == "mdns6"@ {
        SourceModel::Mdns6
    } else if t == "myhostname"@ {
        SourceModel::Myhostname
    } else if t == "resolve"@ {
        SourceModel::Resolve
    } else {
        SourceModel::Other(t)
    }
}

/// The status a criterion names, in any letter case.
pub open spec fn status_named(name: Seq<char>) -> Option<NssStatus> {
    let u = upper(name);
    if u == "SUCCESS"@ {
        Some(NssStatus::Success)
    } else if u == "NOTFOUND"@ {
        Some(NssStatus::NotFound)
    } else if u == "UNAVAIL"@ {
        Some(NssStatus::Unavail)
    } else if u == "TRYAGAIN"@ {
        Some(NssStatus::TryAgain)
    } else {
        None
    }
}

/// The action a criterion names, in any letter case.
pub open spec fn action_named(name: Seq<char>) -> Option<NssAction> {
    let l = lower(name);
    if l == "return"@ {
        Some(NssAction::Return)
    } else if l == "continue"@ {
        Some(NssAction::Continue)
    } else {
        None
    }
}

/// `[!STATUS=action]`: the action for every status but `status`, in the
/// order SUCCESS, NOTFOUND, UNAVAIL, TRYAGAIN.
pub open spec fn all_but(status: NssStatus, action: NssAction) -> Seq<NssCriterion> {
    let c = |s: NssStatus| NssCriterion { status: s, action: action };
    match status {
        NssStatus::Success => seq![c(NssStatus::NotFound), c(NssStatus::Unavail), c(NssStatus::TryAgain)],
        NssStatus::NotFound => seq![c(NssStatus::Success), c(NssStatus::Unavail), c(NssStatus::TryAgain)],
        NssStatus::Unavail => seq![c(NssStatus::Success), c(NssStatus::NotFound), c(NssStatus::TryAgain)],
        NssStatus::TryAgain => seq![c(NssStatus::Success), c(NssStatus::NotFound), c(NssStatus::Unavail)],
    }
}

/// `[!STATUS=action]` reacts to every status but STATUS, each with the
/// action given, and not to STATUS itself.
pub proof fn negation_reacts_to_every_other_status(status: NssStatus, action: NssAction, other: NssStatus)
    ensures
        first_match(all_but(status, action), status) is None,
        other != status ==> first_match(all_but(status, action), other) == Some(
            NssCriterion { status: other, action: action },
        ),
{
    reveal_with_fuel(first_match, 4);
    let cs = all_but(status, action);
    assert(cs.drop_first().drop_first().drop_first() =~= Seq::<NssCriterion>::empty());
}

/// The criteria the inside of one bracket group stands for, or the message
/// that says why it is malformed.
pub open spec fn spec_criteria(body: Seq<char>) -> Result<Seq<NssCriterion>, Seq<char>> {
    let k = find_char(body, '=');
    if k == body.len() {
        Err("expected STATUS=action inside brackets, got '"@ + body + "'"@)
    } else {
        let status_str = body.take(k as int);
        let action_str = body.skip((k + 1) as int);
        let negated = status_str.len() > 0 && status_str[0] == '!';
        let name = if negated { status_str.drop_first() } else { status_str };
        match status_named(name) {
            None => Err("unknown status '"@ + upper(status_str) + "'"@),
            Some(st) => match action_named(action_str) {
                None => Err("unknown action '"@ + lower(action_str) + "'"@),
                Some(a) => Ok(
                    if negated {
                        all_but(st, a)
                    } else {
                        seq![NssCriterion { status: st, action: a }]
                    },
                ),
            },
        }
    }
}

/// A token of the form `[...]`, which holds criteria.
pub open spec fn is_bracketed(t: Seq<char>) -> bool {
    t.len() >= 2 && t[0] == '[' && t.last() == ']'
}

/// The inside of a bracketed token.
pub open spec fn bracket_body(t: Seq<char>) -> Seq<char> {
    t.subrange(1, t.len() - 1)
}

/// Folds the tokens of a `hosts:` line into entries: a bracket group adds
/// its criteria to the pending ones, and a source token closes the pending
/// source (with the pending criteria) and becomes the new pending source.
/// Criteria seen before any source go to the first source.
pub open spec fn hosts_fold(
    tokens: Seq<Seq<char>>,
    pending: Option<SourceModel>,
    crit: Seq<NssCriterion>,
    acc: Seq<EntryModel>,
) -> Result<Seq<EntryModel>, Seq<char>>
    decreases tokens.len(),
{
    if tokens.len() == 0 {
        match pending {
            Some(src) => Ok(acc.push(EntryModel { source: src, criteria: crit })),
            None => Ok(acc),
        }
    } else {
        let t = tokens[0];
        if is_bracketed(t) {
            match spec_criteria(bracket_body(t)) {
                Err(d) => Err(d),
                Ok(cs) => hosts_fold(tokens.drop_first(), pending, crit + cs, acc),
            }
        } else {
            match pending {
                Some(src) => hosts_fold(
                    tokens.drop_first(),
                    Some(spec_source(t)),
                    Seq::empty(),
                    acc.push(EntryModel { source: src, criteria: crit }),
                ),
                None => hosts_fold(tokens.drop_first(), Some(spec_source(t)), crit, acc),
            }
        }
    }
}

/// Where the bracket group that starts `s` ends, when it is one that
/// spans whitespace: `s` starts with `[`, its first run of non-whitespace
/// characters holds no `]`, and the first `]` after it is followed by
/// whitespace or ends the text. Gives the length of the group.
pub open spec fn spanning_group(s: Seq<char>) -> Option<nat> {
    let k = find_char(s, ']');
    if s.len() > 0 && s[0] == '[' && k >= word_len(s) && k < s.len() && (k + 1 == s.len() || is_ws(
        s[(k + 1) as int],
    )) {
        Some(k + 1)
    } else {
        None
    }
}

/// The tokens of a `hosts:` line: runs of non-whitespace characters, except
/// that a bracket group whose `[` run holds no `]` runs on, whitespace
/// included, to the first `]`, when whitespace or the end of the text
/// follows that `]` (see [`spanning_group`]), so that such a group stays one
/// token.
pub open spec fn spec_tokens(s: Seq<char>) -> Seq<Seq<char>>
    decreases s.len(),
{
    if s.len() == 0 {
        seq![]
    } else if is_ws(s[0]) {
        spec_tokens(s.drop_first())
    } else {
        let n = match spanning_group(s) {
            Some(g) => g,
            None => word_len(s),
        };
        proof {
            lemma_find_char_bound(s, ']');
            lemma_word_len_bound(s);
        }
        seq![s.take(n as int)] + spec_tokens(s.skip(n as int))
    }
}

/// The entries of a `hosts:` line, given the text after `hosts:`.
pub open spec fn spec_hosts_line(rest: Seq<char>) -> Result<Seq<EntryModel>, Seq<char>> {
    hosts_fold(spec_tokens(rest), None, Seq::empty(), Seq::empty())
}

/// The tokens of a `hosts:` line (see [`spec_tokens`]).
fn tokenize(s: &[char]) -> (r: Vec<Vec<char>>)
    ensures
        views(r@) == spec_tokens(s@),
{
    let mut out: Vec<Vec<char>> = Vec::new();
    let mut i: usize = 0;
    assert(s@.skip(0) =~= s@);
    assert(views(out@) + spec_tokens(s@) =~= spec_tokens(s@));
    while i < s.len()
        invariant
            i <= s@.len(),
            spec_tokens(s@) == views(out@) + spec_tokens(s@.skip(i as int)),
        decreases s@.len() - i,
    {
        let ghost rest = s@.skip(i as int);
        assert(rest[0] == s@[i as int]);
        if is_whitespace(s[i]) {
            assert(rest.drop_first() =~= s@.skip(i + 1));
            i = i + 1;
        } else {
            let mut w = i + 1;
            while w < s.len() && !is_whitespace(s[w])
                invariant
                    i < w <= s@.len(),
                    forall|m: int| i <= m < w ==> !is_ws(#[trigger] s@[m]),
                decreases s@.len() - w,
            {
                w = w + 1;
            }
            proof {
                assert forall|m: int| 0 <= m < w - i implies !is_ws(#[trigger] rest[m]) by {
                    assert(rest[m] == s@[m + i]);
                }
                if w < s@.len() {
                    assert(rest[w - i] == s@[w as int]);
                }
                lemma_word_len(rest, w - i);
            }
            let close = find_from(s, i, ']');
            let spans = s[i] == '[' && close >= w && close < s.len() && (close + 1 == s.len()
                || is_whitespace(s[close + 1]));
            proof {
                if close < s.len() {
                    assert(rest[close - i] == s@[close as int]);
                    if close + 1 < s.len() {
                        assert(rest[close - i + 1] == s@[close + 1]);
                    }
                }
                assert(spans ==> spanning_group(rest) == Some((close - i + 1) as nat));
                assert(!spans ==> spanning_group(rest) is None);
            }
            let j = if spans {
                close + 1
            } else {
                w
            };
            proof {
                assert(rest.take(j - i) =~= s@.subrange(i as int, j as int));
                assert(rest.skip(j - i) =~= s@.skip(j as int));
            }
            let token = copy_range(s, i, j);
            let ghost prev = out@;
            out.push(token);
            proof {
                assert(views(out@) =~= views(prev) + seq![token@]);
            }
            i = j;
        }
    }
    proof {
        assert(s@.skip(i as int) =~= Seq::<char>::empty());
        assert(views(out@) + Seq::<Seq<char>>::empty() =~= views(out@));
    }
    out
}

/// A line with its comment and surrounding whitespace removed.
pub open spec fn clean_line(line: Seq<char>) -> Seq<char> {
    trim(before_char(line, '#'))
}

/// Reads the lines from index `i` on: each `hosts:` line replaces the
/// entries read so far; the first malformed `hosts:` line stops the read
/// with its (1-based) line number and message.
pub open spec fn nss_from(ls: Seq<Seq<char>>, i: int, acc: Seq<EntryModel>) -> Result<
    Seq<EntryModel>,
    (int, Seq<char>),
>
    decreases ls.len() - i,
{
    if i < 0 || i >= ls.len() {
        Ok(acc)
    } else {
        let line = clean_line(ls[i]);
        if line.len() == 0 || !has_prefix(line, "hosts:"@) {
            nss_from(ls, i + 1, acc)
        } else {
            match spec_hosts_line(line.skip("hosts:"@.len() as int)) {
                Err(d) => Err((i + 1, d)),
                Ok(es) => nss_from(ls, i + 1, es),
            }
        }
    }
}

/// What `/etc/nsswitch.conf` with text `content` configures: the entries of
/// its last `hosts:` line (none without one), or the line number and
/// message of the first malformed `hosts:` line.
pub open spec fn spec_nsswitch(content: Seq<char>) -> Result<Seq<EntryModel>, (int, Seq<char>)> {
    nss_from(lines(content), 0, Seq::empty())
}

fn parse_source(token: &[char]) -> (r: NssSource)
    ensures
        r@ == spec_source(token@),
{
    if is_text(token, "files") {
        NssSource::Files
    } else if is_text(token, "dns") {
        NssSource::Dns
    } else if is_text(token, "mdns4_minimal") {
        NssSource::Mdns4Minimal
    } else if is_text(token, "mdns6_minimal") {
        NssSource::Mdns6Minimal
    } else if is_text(token, "mdns4") {
        NssSource::Mdns4
    } else if is_text(token, "mdns6") {
        NssSource::Mdns6
    } else if is_text(token, "myhostname") {
        NssSource::Myhostname
    } else if is_text(token, "resolve") {
        NssSource::Resolve
    } else {
        NssSource::Other(string_of(token))
    }
}

fn status_from(name: &[char]) -> (r: Option<NssStatus>)
    ensures
        r == status_named(name@),
{
    let u = to_upper(name);
    if is_text(&u, "SUCCESS") {
        Some(NssStatus::Success)
    } else if is_text(&u, "NOTFOUND") {
        Some(NssStatus::NotFound)
    } else if is_text(&u, "UNAVAIL") {
        Some(NssStatus::Unavail)
    } else if is_text(&u, "TRYAGAIN") {
        Some(NssStatus::TryAgain)
    } else {
        None
    }
}

fn action_from(name: &[char]) -> (r: Option<NssAction>)
    ensures
        r == action_named(name@),
{
    let l = to_lower(name);
    if is_text(&l, "return") {
        Some(NssAction::Return)
    } else if is_text(&l, "continue") {
        Some(NssAction::Continue)
    } else {
        None
    }
}

/// A message made of a literal, some characters and a closing quote.
fn quoted_message(lead: &str, middle: &[char]) -> (r: String)
    ensures
        r@ == lead@ + middle@ + "'"@,
{
    let mut d = String::from_str(lead);
    push_chars(&mut d, middle);
    d.append("'");
    d
}

fn parse_error(path: &str, line_no: usize, detail: String) -> (e: ConfigError)
    ensures
        is_parse_error(e, path@, line_no as int, detail@),
{
    ConfigError::Parse { path: String::from_str(path), line_no, detail }
}

fn all_but_vec(status: NssStatus, action: NssAction) -> (r: Vec<NssCriterion>)
    ensures
        r@ == all_but(status, action),
{
    let c = |s: NssStatus| -> (r: NssCriterion)
        ensures
            r == (NssCriterion { status: s, action: action }),
        { NssCriterion { status: s, action: action } };
    let r = match status {
        NssStatus::Success => vec![c(NssStatus::NotFound), c(NssStatus::Unavail), c(NssStatus::TryAgain)],
        NssStatus::NotFound => vec![c(NssStatus::Success), c(NssStatus::Unavail), c(NssStatus::TryAgain)],
        NssStatus::Unavail => vec![c(NssStatus::Success), c(NssStatus::NotFound), c(NssStatus::TryAgain)],
        NssStatus::TryAgain => vec![c(NssStatus::Success), c(NssStatus::NotFound), c(NssStatus::Unavail)],
    };
    assert(r@ =~= all_but(status, action));
    r
}

/// Parses the inside of one bracket group, `STATUS=action` or
/// `!STATUS=action`.
fn parse_criterion(body: &[char], path: &str, line_no: usize) -> (r: Result<Vec<NssCriterion>, ConfigError>)
    ensures
        match spec_criteria(body@) {
            Ok(cs) => r matches Ok(v) && v@ == cs,
            Err(d) => r matches Err(e) && is_parse_error(e, path@, line_no as int, d),
        },
{
    let k = find_from(body, 0, '=');
    assert(body@.skip(0) =~= body@);
    if k == body.len() {
        return Err(parse_error(path, line_no, quoted_message("expected STATUS=action inside brackets, got '", body)));
    }
    let status_str = copy_range(body, 0, k);
    let action_str = copy_range(body, k + 1, body.len());
    assert(status_str@ =~= body@.take(k as int));
    assert(action_str@ =~= body@.skip(k + 1));
    let negated = status_str.len() > 0 && status_str[0] == '!';
    let name = if negated {
        copy_range(&status_str, 1, status_str.len())
    } else {
        copy_range(&status_str, 0, status_str.len())
    };
    assert(negated ==> name@ =~= status_str@.drop_first());
    assert(!negated ==> name@ =~= status_str@);
    let status = match status_from(&name) {
        Some(s) => s,
        None => {
            let up = to_upper(&status_str);
            return Err(parse_error(path, line_no, quoted_message("unknown status '", &up)));
        },
    };
    let action = match action_from(&action_str) {
        Some(a) => a,
        None => {
            let low = to_lower(&action_str);
            return Err(parse_error(path, line_no, quoted_message("unknown action '", &low)));
        },
    };
    if negated {
        Ok(all_but_vec(status, action))
    } else {
        let v = vec![NssCriterion { status, action }];
        assert(v@ =~= seq![NssCriterion { status: status, action: action }]);
        Ok(v)
    }
}

spec fn pending_view(p: Option<NssSource>) -> Option<SourceModel> {
    match p {
        Some(s) => Some(s@),
        None => None,
    }
}

/// Parses the text after `hosts:` into entries.
fn parse_hosts_line(rest: &[char], path: &str, line_no: usize) -> (r: Result<Vec<NssEntry>, ConfigError>)
    ensures
        match spec_hosts_line(rest@) {
            Ok(es) => r matches Ok(v) && entry_views(v@) == es,
            Err(d) => r matches Err(e) && is_parse_error(e, path@, line_no as int, d),
        },
{
    let tokens = tokenize(rest);
    let mut entries: Vec<NssEntry> = Vec::new();
    let mut pending_source: Option<NssSource> = None;
    let mut pending_criteria: Vec<NssCriterion> = Vec::new();
    let mut i: usize = 0;
    assert(views(tokens@).skip(0) =~= views(tokens@));
    assert(entry_views(entries@) =~= Seq::<EntryModel>::empty());
    while i < tokens.len()
        invariant
            i <= tokens@.len(),
            views(tokens@) == spec_tokens(rest@),
            spec_hosts_line(rest@) == hosts_fold(
                views(tokens@).skip(i as int),
                pending_view(pending_source),
                pending_criteria@,
                entry_views(entries@),
            ),
        decreases tokens@.len() - i,
    {
        let token = &tokens[i];
        let ghost ts = views(tokens@).skip(i as int);
        assert(ts[0] == token@);
        assert(ts.drop_first() =~= views(tokens@).skip(i + 1));
        let n = token.len();
        if n >= 2 && token[0] == '[' && token[n - 1] == ']' {
            let body = copy_range(token, 1, n - 1);
            match parse_criterion(&body, path, line_no) {
                Ok(cs) => {
                    let ghost before = pending_criteria@;
                    let mut cs = cs;
                    pending_criteria.append(&mut cs);
                    assert(pending_criteria@ =~= before + spec_criteria(bracket_body(token@))->Ok_0);
                },
                Err(e) => {
                    return Err(e);
                },
            }
        } else {
            let src = parse_source(token);
            match pending_source {
                Some(prev) => {
                    let ghost before = entries@;
                    let crit = pending_criteria;
                    let ghost cv = crit@;
                    let ghost pv = prev@;
                    entries.push(NssEntry { source: prev, criteria: crit });
                    pending_criteria = Vec::new();
                    assert(entry_views(entries@) =~= entry_views(before).push(
                        EntryModel { source: pv, criteria: cv },
                    ));
                },
                None => {},
            }
            pending_source = Some(src);
        }
        i = i + 1;
    }
    match pending_source {
        Some(src) => {
            let ghost before = entries@;
            let ghost cv = pending_criteria@;
            let ghost sv = src@;
            entries.push(NssEntry { source: src, criteria: pending_criteria });
            assert(entry_views(entries@) =~= entry_views(before).push(
                EntryModel { source: sv, criteria: cv },
            ));
        },
        None => {},
    }
    Ok(entries)
}

/// Parses the `hosts:` line of /etc/nsswitch.conf (given as `content`,
/// read from `path`) into an ordered list of sources plus any
/// `[STATUS=action]` criteria attached to each one. Comments (from `#`)
/// and other databases' lines are ignored; a later `hosts:` line replaces
/// an earlier one.
///
/// Example input line:
///   hosts: files mdns4_minimal [NOTFOUND=return] dns
pub fn parse_nsswitch(path: &str, content: &str) -> (r: Result<NsswitchConfig, ConfigError>)
    ensures
        match spec_nsswitch(content@) {
            Ok(es) => r matches Ok(cfg) && cfg@ == es,
            Err((n, d)) => r matches Err(e) && is_parse_error(e, path@, n, d),
        },
{
    let text = chars_of(content);
    let all_lines = split_lines(&text);
    let prefix = chars_of("hosts:");
    let mut hosts: Vec<NssEntry> = Vec::new();
    let mut i: usize = 0;
    assert(entry_views(hosts@) =~= Seq::<EntryModel>::empty());
    while i < all_lines.len()
        invariant
            i <= all_lines@.len(),
            views(all_lines@) == lines(content@),
            prefix@ == "hosts:"@,
            spec_nsswitch(content@) == nss_from(views(all_lines@), i as int, entry_views(hosts@)),
        decreases all_lines@.len() - i,
    {
        let ghost ls = views(all_lines@);
        assert(ls[i as int] == all_lines@[i as int]@);
        let stripped = strip_comment(&all_lines[i]);
        let line = trim_chars(&stripped);
        if line.len() == 0 || !starts_with(&line, &prefix) {
            i = i + 1;
        } else {
            let rest = copy_range(&line, prefix.len(), line.len());
            assert(rest@ =~= line@.skip("hosts:"@.len() as int));
            match parse_hosts_line(&rest, path, i + 1) {
                Ok(es) => {
                    hosts = es;
                },
                Err(e) => {
                    return Err(e);
                },
            }
            i = i + 1;
        }
    }
    Ok(NsswitchConfig { hosts })
}

} // verus!
