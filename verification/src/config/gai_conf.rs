//! `/etc/gai.conf`: the RFC 6724 address-selection policy.

use crate::text::{
    chars_of, lines, parse_u32, spec_parse_u32, split_lines, split_words, string_of, trim,
    trim_chars, views, words, is_text, chars_eq,
};
use crate::types::{rule_views, GaiConfig, GaiModel};
use vstd::prelude::*;

verus! {

/// The effect of one line: blank lines and `#` comments change nothing;
/// `label PREFIX N` and `precedence PREFIX N` add a rule when N is a
/// number; anything else is ignored.
pub open spec fn gai_line(line: Seq<char>, m: GaiModel) -> GaiModel {
    let t = trim(line);
    let w = words(t);
    if t.len() == 0 || t[0] == '#' || w.len() < 3 || spec_parse_u32(w[2]) is None {
        m
    } else if w[0] == "label"@ {
        GaiModel { label_rules: m.label_rules.push((w[1], spec_parse_u32(w[2]).unwrap())), ..m }
    } else if w[0] == "precedence"@ {
        GaiModel {
            precedence_rules: m.precedence_rules.push((w[1], spec_parse_u32(w[2]).unwrap())),
            ..m
        }
    } else {
        m
    }
}

/// Applies the lines from index `i` on.
pub open spec fn gai_from(ls: Seq<Seq<char>>, i: int, m: GaiModel) -> GaiModel
    decreases ls.len() - i,
{
    if i < 0 || i >= ls.len() {
        m
    } else {
        gai_from(ls, i + 1, gai_line(ls[i], m))
    }
}

/// glibc's compiled-in policy: no rules, IPv6 preferred.
pub open spec fn default_gai() -> GaiModel {
    GaiModel { label_rules: Seq::empty(), precedence_rules: Seq::empty(), prefer_ipv6: true }
}

/// The precedence that the last rule for exactly `prefix` gives, or 0
/// when no rule names it.
pub open spec fn precedence_of(rules: Seq<(Seq<char>, u32)>, prefix: Seq<char>) -> nat
    decreases rules.len(),
{
    if rules.len() == 0 {
        0
    } else if rules.last().0 == prefix {
        rules.last().1 as nat
    } else {
        precedence_of(rules.drop_last(), prefix)
    }
}

/// Whether IPv6 is preferred over IPv4 under the precedence rules: glibc's
/// built-in table ranks `::/0` (native IPv6, 40) above `::ffff:0:0/96`
/// (IPv4-mapped, 35); `precedence` lines replace that table, and then IPv6
/// stays preferred unless the IPv4-mapped prefix is ranked above `::/0` (a
/// prefix without a line ranks 0). Prefixes are compared as written.
pub open spec fn prefers_ipv6(precedence_rules: Seq<(Seq<char>, u32)>) -> bool {
    precedence_rules.len() == 0 || precedence_of(precedence_rules, "::/0"@) >= precedence_of(
        precedence_rules,
        "::ffff:0:0/96"@,
    )
}

/// The policy that `/etc/gai.conf` sets: the built-in policy when there is
/// no such file, else the built-in policy with the file's rules added, IPv6
/// preferred as its precedence rules say.
pub open spec fn spec_gai_conf(content: Option<Seq<char>>) -> GaiModel {
    match content {
        None => default_gai(),
        Some(c) => {
            let m = gai_from(lines(c), 0, default_gai());
            GaiModel { prefer_ipv6: prefers_ipv6(m.precedence_rules), ..m }
        },
    }
}

/// The precedence that the last rule for exactly `prefix` gives, or 0.
fn last_precedence(rules: &Vec<(String, u32)>, prefix: &str) -> (r: u32)
    ensures
        r == precedence_of(rule_views(rules@), prefix@),
{
    let target = chars_of(prefix);
    let mut r: u32 = 0;
    let mut i: usize = 0;
    while i < rules.len()
        invariant
            i <= rules@.len(),
            target@ == prefix@,
            r == precedence_of(rule_views(rules@).take(i as int), prefix@),
        decreases rules@.len() - i,
    {
        let ghost taken = rule_views(rules@).take(i + 1);
        assert(taken.drop_last() =~= rule_views(rules@).take(i as int));
        assert(taken.last() == (rules@[i as int].0@, rules@[i as int].1));
        if chars_eq(&chars_of(rules[i].0.as_str()), &target) {
            r = rules[i].1;
        }
        i = i + 1;
    }
    assert(rule_views(rules@).take(rules@.len() as int) =~= rule_views(rules@));
    r
}

/// Parses /etc/gai.conf, given as `content`, or `None` when the file does
/// not exist. Most systems have no such file, meaning glibc's compiled-in
/// defaults apply (which themselves prefer IPv6); absence of the file is a
/// valid, meaningful result, not an error. Whether IPv6 is preferred follows
/// the file's precedence rules.
pub fn parse_gai_conf(content: Option<&str>) -> (r: GaiConfig)
    ensures
        r@ == spec_gai_conf(
            match content {
                Some(c) => Some(c@),
                None => None,
            },
        ),
{
    let mut label_rules: Vec<(String, u32)> = Vec::new();
    let mut precedence_rules: Vec<(String, u32)> = Vec::new();
    assert(rule_views(label_rules@) =~= Seq::<(Seq<char>, u32)>::empty());
    assert(rule_views(precedence_rules@) =~= Seq::<(Seq<char>, u32)>::empty());
    let text = match content {
        None => {
            return GaiConfig { label_rules, precedence_rules, prefer_ipv6: true };
        },
        Some(c) => c,
    };
    let cs = chars_of(text);
    let all_lines = split_lines(&cs);
    let mut i: usize = 0;
    while i < all_lines.len()
        invariant
            i <= all_lines@.len(),
            views(all_lines@) == lines(text@),
            gai_from(views(all_lines@), 0, default_gai()) == gai_from(
                views(all_lines@),
                i as int,
                GaiModel {
                    label_rules: rule_views(label_rules@),
                    precedence_rules: rule_views(precedence_rules@),
                    prefer_ipv6: true,
                },
            ),
        decreases all_lines@.len() - i,
    {
        let ghost ls = views(all_lines@);
        assert(ls[i as int] == all_lines@[i as int]@);
        let t = trim_chars(&all_lines[i]);
        let w = split_words(&t);
        let ghost wv = views(w@);
        if t.len() == 0 || t[0] == '#' || w.len() < 3 {
        } else {
            assert(wv[2] == w@[2]@ && wv[1] == w@[1]@ && wv[0] == w@[0]@);
            match parse_u32(&w[2]) {
                None => {},
                Some(v) => {
                    if is_text(&w[0], "label") {
                        let ghost before = rule_views(label_rules@);
                        label_rules.push((string_of(&w[1]), v));
                        assert(rule_views(label_rules@) =~= before.push((wv[1], v)));
                    } else if is_text(&w[0], "precedence") {
                        let ghost before = rule_views(precedence_rules@);
                        precedence_rules.push((string_of(&w[1]), v));
                        assert(rule_views(precedence_rules@) =~= before.push((wv[1], v)));
                    }
                },
            }
        }
        i = i + 1;
    }
    let prefer_ipv6 = precedence_rules.len() == 0 || last_precedence(&precedence_rules, "::/0")
        >= last_precedence(&precedence_rules, "::ffff:0:0/96");
    GaiConfig { label_rules, precedence_rules, prefer_ipv6 }
}

} // verus!
