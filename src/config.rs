use vstd::prelude::*;
use vstd::string::*;

use crate::settings::{
    regex_compiles, Icon, Icons, Pattern, Predicate, Property, PropertyListItem,
};

verus! {

/// A configuration document as plain values: text, lists, mappings (entries
/// in document order) and anything else.
#[derive(Debug)]
pub enum ConfigValue {
    Text(String),
    List(Vec<ConfigValue>),
    Mapping(Vec<(ConfigValue, ConfigValue)>),
    Other,
}

/// The icon configuration: a list of mappings from a rule key to a list of
/// rules, and a polling hint.
pub struct IconYaml {
    pub icons: Vec<Vec<(ConfigValue, ConfigValue)>>,
    pub tick_rate: Option<u64>,
}

/// Why a configuration was refused.
#[derive(Debug)]
pub enum ParseError {
    ParseFailed(String),
    UnknownKey(String),
    MissingPredicate,
}

pub open spec fn is_rule_key(k: Seq<char>) -> bool {
    k == "class_name"@ || k == "window_title"@
}

pub open spec fn is_predicate_key(k: Seq<char>) -> bool {
    k == "matches"@ || k == "contains"@ || k == "starts_with"@
}

/// The value of the first `icon: <text>` entry of `m` from `i` on.
pub open spec fn find_icon(m: Seq<(ConfigValue, ConfigValue)>, i: int) -> Option<Seq<char>>
    decreases m.len() - i,
{
    if 0 <= i < m.len() {
        match m[i] {
            (ConfigValue::Text(k), ConfigValue::Text(v)) => if k@ == "icon"@ {
                Some(v@)
            } else {
                find_icon(m, i + 1)
            },
            _ => find_icon(m, i + 1),
        }
    } else {
        None
    }
}

/// The first `<predicate kind>: <text>` entry of `m` from `i` on.
pub open spec fn find_predicate(m: Seq<(ConfigValue, ConfigValue)>, i: int) -> Option<
    (Seq<char>, Seq<char>),
>
    decreases m.len() - i,
{
    if 0 <= i < m.len() {
        match m[i] {
            (ConfigValue::Text(k), ConfigValue::Text(v)) => if is_predicate_key(k@) {
                Some((k@, v@))
            } else {
                find_predicate(m, i + 1)
            },
            _ => find_predicate(m, i + 1),
        }
    } else {
        None
    }
}

proof fn lemma_found_predicate_kind(m: Seq<(ConfigValue, ConfigValue)>, i: int)
    ensures
        match find_predicate(m, i) {
            Some(p) => is_predicate_key(p.0),
            None => true,
        },
    decreases m.len() - i,
{
    if 0 <= i < m.len() {
        lemma_found_predicate_kind(m, i + 1);
    }
}

/// The position of the first `<rule key>: <list>` entry of `m` from `i` on.
pub open spec fn find_sublist(m: Seq<(ConfigValue, ConfigValue)>, i: int) -> Option<int>
    decreases m.len() - i,
{
    if 0 <= i < m.len() {
        match m[i] {
            (ConfigValue::Text(k), ConfigValue::List(_)) => if is_rule_key(k@) {
                Some(i)
            } else {
                find_sublist(m, i + 1)
            },
            _ => find_sublist(m, i + 1),
        }
    } else {
        None
    }
}

/// Whether a rule mapping, or a rule nested in it, names a pattern that does
/// not compile.
pub open spec fn mapping_bad(m: Seq<(ConfigValue, ConfigValue)>) -> bool
    decreases m, 0int,
{
    let bad_predicate = match find_predicate(m, 0) {
        Some(p) => p.0 == "matches"@ && !regex_compiles(p.1),
        None => false,
    };
    let bad_sublist = match find_sublist(m, 0) {
        Some(j) => if 0 <= j < m.len() {
            match m[j].1 {
                ConfigValue::List(l) => list_bad(l@, 0),
                _ => false,
            }
        } else {
            false
        },
        None => false,
    };
    bad_predicate || bad_sublist
}

/// Whether a rule mapping of `s` from `i` on is bad.
pub open spec fn list_bad(s: Seq<ConfigValue>, i: int) -> bool
    decreases s, s.len() - i,
{
    if 0 <= i < s.len() {
        let here = match s[i] {
            ConfigValue::Mapping(m) => mapping_bad(m@),
            _ => false,
        };
        here || list_bad(s, i + 1)
    } else {
        false
    }
}

/// The mappings of `s` that make a rule: those with a predicate and an icon.
pub open spec fn accepted(s: Seq<ConfigValue>) -> Seq<Seq<(ConfigValue, ConfigValue)>>
    decreases s.len(),
{
    if s.len() == 0 {
        seq![]
    } else {
        let prev = accepted(s.drop_last());
        match s.last() {
            ConfigValue::Mapping(m) => if find_predicate(m@, 0) is Some && find_icon(m@, 0) is Some {
                prev.push(m@)
            } else {
                prev
            },
            _ => prev,
        }
    }
}

/// The kind and text of a predicate.
pub open spec fn predicate_text(p: Predicate) -> (Seq<char>, Seq<char>) {
    match p {
        Predicate::Matches(r) => ("matches"@, r@),
        Predicate::Contains(t) => ("contains"@, t@),
        Predicate::StartsWith(t) => ("starts_with"@, t@),
    }
}

/// Whether rule `item` is what the mapping `m` describes.
pub open spec fn item_from_config(item: PropertyListItem, m: Seq<(ConfigValue, ConfigValue)>) -> bool
    decreases item, 0int,
{
    &&& find_predicate(m, 0) == Some(predicate_text(item.predicate))
    &&& find_icon(m, 0) == Some(item.icon.0@)
    &&& match find_sublist(m, 0) {
        None => item.sub_list is None,
        Some(j) => 0 <= j < m.len() && match (m[j], item.sub_list) {
            (
                (ConfigValue::Text(k), ConfigValue::List(l)),
                Some(sub),
            ) => property_from_config(*sub, k@, l@),
            _ => false,
        },
    }
}

/// Whether `p` is the rule list that key `key` and list `s` describe: one
/// rule per accepted mapping, in order.
pub open spec fn property_from_config(p: Property, key: Seq<char>, s: Seq<ConfigValue>) -> bool
    decreases p, 1int,
{
    match p {
        Property::ClassName(items) => key == "class_name"@ && items@.len() == accepted(s).len()
            && forall|i: int|
            0 <= i < items@.len() ==> item_from_config(#[trigger] items@[i], accepted(s)[i]),
        Property::WindowTitle(items) => key == "window_title"@ && items@.len() == accepted(s).len()
            && forall|i: int|
            0 <= i < items@.len() ==> item_from_config(#[trigger] items@[i], accepted(s)[i]),
    }
}

fn text_is(s: &str, lit: &str) -> (r: bool)
    ensures
        r == (s@ == lit@),
{
    String::from_str(s) == String::from_str(lit)
}

fn find_icon_entry(m: &Vec<(ConfigValue, ConfigValue)>) -> (r: Option<&String>)
    ensures
        match find_icon(m@, 0) {
            Some(v) => r is Some && r->0@ == v,
            None => r is None,
        },
{
    let mut i: usize = 0;
    while i < m.len()
        invariant
            i <= m@.len(),
            find_icon(m@, 0) == find_icon(m@, i as int),
        decreases m@.len() - i,
    {
        match &m[i] {
            (ConfigValue::Text(k), ConfigValue::Text(v)) => {
                if text_is(k.as_str(), "icon") {
                    return Some(v);
                }
            },
            _ => {},
        }
        i += 1;
    }
    None
}

fn find_predicate_entry(m: &Vec<(ConfigValue, ConfigValue)>) -> (r: Option<(&String, &String)>)
    ensures
        match find_predicate(m@, 0) {
            Some(p) => match r {
                Some((k, v)) => k@ == p.0 && v@ == p.1,
                None => false,
            },
            None => r is None,
        },
{
    let mut i: usize = 0;
    while i < m.len()
        invariant
            i <= m@.len(),
            find_predicate(m@, 0) == find_predicate(m@, i as int),
        decreases m@.len() - i,
    {
        match &m[i] {
            (ConfigValue::Text(k), ConfigValue::Text(v)) => {
                if text_is(k.as_str(), "matches") || text_is(k.as_str(), "contains") || text_is(
                    k.as_str(),
                    "starts_with",
                ) {
                    return Some((k, v));
                }
            },
            _ => {},
        }
        i += 1;
    }
    None
}

/// The first entry of a rule mapping that holds nested rules: a rule key
/// with a list.
pub fn find_sublist_entry(m: &Vec<(ConfigValue, ConfigValue)>) -> (r: Option<(&String, &Vec<ConfigValue>)>)
    ensures
        match find_sublist(m@, 0) {
            Some(j) => match r {
                Some((k, l)) => 0 <= j < m@.len() && is_rule_key(k@) && m@[j] == (
                ConfigValue::Text(*k),
                ConfigValue::List(*l),
                ),
                None => false,
            },
            None => r is None,
        },
{
    let mut i: usize = 0;
    while i < m.len()
        invariant
            i <= m@.len(),
            find_sublist(m@, 0) == find_sublist(m@, i as int),
        decreases m@.len() - i,
    {
        match &m[i] {
            (ConfigValue::Text(k), ConfigValue::List(l)) => {
                if text_is(k.as_str(), "class_name") || text_is(k.as_str(), "window_title") {
                    return Some((k, l));
                }
            },
            _ => {},
        }
        i += 1;
    }
    None
}

/// Reads one rule mapping: none when it lacks a predicate or an icon.
fn parse_mapping(m: &Vec<(ConfigValue, ConfigValue)>) -> (r: Result<Option<PropertyListItem>, ParseError>)
    ensures
        r is Err <==> mapping_bad(m@),
        r is Err ==> r->Err_0 is ParseFailed,
        r is Ok ==> (r->Ok_0 is Some <==> (find_predicate(m@, 0) is Some && find_icon(m@, 0) is Some)),
        r is Ok && r->Ok_0 is Some ==> item_from_config(r->Ok_0->0, m@),
    decreases m,
{
    let icon = find_icon_entry(m);
    proof {
        lemma_found_predicate_kind(m@, 0);
    }
    let predicate = match find_predicate_entry(m) {
        Some((k, v)) => {
            if text_is(k.as_str(), "matches") {
                match Pattern::new(v.as_str()) {
                    Some(p) => Some(Predicate::Matches(p)),
                    None => {
                        return Err(ParseError::ParseFailed(String::from_str("Failed to parse pattern.")));
                    },
                }
            } else if text_is(k.as_str(), "contains") {
                Some(Predicate::Contains(v.clone()))
            } else {
                Some(Predicate::StartsWith(v.clone()))
            }
        },
        None => None,
    };
    let sub_list = match find_sublist_entry(m) {
        Some((k, l)) => {
            proof {
                let j = find_sublist(m@, 0)->0;
                broadcast use vstd::std_specs::vec::axiom_vec_decreases_to_view;
                assert(decreases_to!(m => m@));
                assert(decreases_to!(m@ => m@[j]));
                assert(decreases_to!(m@[j] => m@[j].1));
                assert(m@[j].1 == ConfigValue::List(*l));
                assert(decreases_to!(m@[j].1 => m@[j].1->List_0));
                assert(decreases_to!(m => *l));
            }
            match get_properties(k.as_str(), l) {
                Ok(p) => {
                    let b = Box::new(p);
                    proof {
                        let j = find_sublist(m@, 0)->0;
                        assert(property_from_config(*b, k@, l@));
                        assert(m@[j] == (ConfigValue::Text(*k), ConfigValue::List(*l)));
                    }
                    Some(b)
                },
                Err(e) => {
                    return Err(e);
                },
            }
        },
        None => None,
    };
    proof {
        match find_sublist(m@, 0) {
            Some(j) => {
                assert(sub_list is Some);
                let sub = *sub_list->0;
                match m@[j] {
                    (ConfigValue::Text(k), ConfigValue::List(l)) => {
                        assert(property_from_config(sub, k@, l@));
                    },
                    _ => {
                        assert(false);
                    },
                }
            },
            None => {
                assert(sub_list is None);
            },
        }
    }
    match (predicate, icon) {
        (Some(predicate), Some(icon)) => {
            let item = PropertyListItem { predicate, icon: Icon(icon.clone()), sub_list };
            proof {
                assert(find_predicate(m@, 0) == Some(predicate_text(item.predicate)));
                assert(find_icon(m@, 0) == Some(item.icon.0@));
            }
            Ok(Some(item))
        },
        _ => Ok(None),
    }
}

/// Reads the rules listed under `key`, skipping mappings without a predicate
/// or an icon. Fails when a pattern, here or nested, does not compile.
pub fn get_properties(key: &str, seq: &Vec<ConfigValue>) -> (r: Result<Property, ParseError>)
    requires
        is_rule_key(key@),
    ensures
        r is Err <==> list_bad(seq@, 0),
        r is Err ==> r->Err_0 is ParseFailed,
        r is Ok ==> property_from_config(r->Ok_0, key@, seq@),
    decreases seq,
{
    let mut items: Vec<PropertyListItem> = Vec::new();
    let mut i: usize = 0;
    while i < seq.len()
        invariant
            i <= seq@.len(),
            list_bad(seq@, 0) == list_bad(seq@, i as int),
            items@.len() == accepted(seq@.take(i as int)).len(),
            forall|k: int|
                0 <= k < items@.len() ==> item_from_config(
                    #[trigger] items@[k],
                    accepted(seq@.take(i as int))[k],
                ),
        decreases seq@.len() - i,
    {
        proof {
            assert(seq@.take(i + 1).drop_last() =~= seq@.take(i as int));
        }
        match &seq[i] {
            ConfigValue::Mapping(m) => {
                proof {
                    assert(decreases_to!(seq => seq@[i as int]));
                }
                match parse_mapping(m) {
                    Err(e) => {
                        return Err(e);
                    },
                    Ok(Some(item)) => {
                        items.push(item);
                    },
                    Ok(None) => {},
                }
            },
            _ => {},
        }
        i += 1;
    }
    proof {
        assert(seq@.take(seq@.len() as int) =~= seq@);
    }
    if text_is(key, "class_name") {
        Ok(Property::ClassName(items))
    } else {
        Ok(Property::WindowTitle(items))
    }
}

/// The entries of all top-level mappings, in order.
pub open spec fn entries_of(maps: Seq<Vec<(ConfigValue, ConfigValue)>>) -> Seq<(ConfigValue, ConfigValue)>
    decreases maps.len(),
{
    if maps.len() == 0 {
        seq![]
    } else {
        entries_of(maps.drop_last()) + maps.last()@
    }
}

/// Whether a top-level entry is a rule key with a list of good rules.
pub open spec fn entry_fine(e: (ConfigValue, ConfigValue)) -> bool {
    match e {
        (ConfigValue::Text(k), ConfigValue::List(l)) => is_rule_key(k@) && !list_bad(l@, 0),
        _ => false,
    }
}

/// Whether rule list `p` is what the top-level entry `e` describes.
pub open spec fn entry_property(p: Property, e: (ConfigValue, ConfigValue)) -> bool {
    match e {
        (ConfigValue::Text(k), ConfigValue::List(l)) => property_from_config(p, k@, l@),
        _ => false,
    }
}

impl Icons {
    /// Reads the icon rules: one rule list per top-level entry, in order.
    /// Fails when an entry is not a rule key with a list, or when a pattern
    /// does not compile.
    pub fn new(yaml: &IconYaml) -> (r: Result<Icons, ParseError>)
        ensures
            r is Ok <==> forall|k: int|
                0 <= k < entries_of(yaml.icons@).len() ==> entry_fine(
                    #[trigger] entries_of(yaml.icons@)[k],
                ),
            r is Err ==> r->Err_0 is ParseFailed,
            r is Ok ==> r->Ok_0.tick_rate == yaml.tick_rate && r->Ok_0.icons@.len() == entries_of(
                yaml.icons@,
            ).len() && forall|k: int|
                0 <= k < r->Ok_0.icons@.len() ==> entry_property(
                    #[trigger] r->Ok_0.icons@[k],
                    entries_of(yaml.icons@)[k],
                ),
    {
        let mut icons: Vec<Property> = Vec::new();
        let mut i: usize = 0;
        while i < yaml.icons.len()
            invariant
                i <= yaml.icons@.len(),
                icons@.len() == entries_of(yaml.icons@.take(i as int)).len(),
                forall|k: int|
                    0 <= k < icons@.len() ==> entry_fine(
                        #[trigger] entries_of(yaml.icons@.take(i as int))[k],
                    ),
                forall|k: int|
                    0 <= k < icons@.len() ==> entry_property(
                        #[trigger] icons@[k],
                        entries_of(yaml.icons@.take(i as int))[k],
                    ),
            decreases yaml.icons@.len() - i,
        {
            let mapping = &yaml.icons[i];
            let ghost before = entries_of(yaml.icons@.take(i as int));
            proof {
                assert(yaml.icons@.take(i + 1).drop_last() =~= yaml.icons@.take(i as int));
                assert(entries_of(yaml.icons@.take(i + 1)) == before + mapping@);
            }
            let mut j: usize = 0;
            while j < mapping.len()
                invariant
                    i < yaml.icons@.len(),
                    *mapping == yaml.icons@[i as int],
                    before == entries_of(yaml.icons@.take(i as int)),
                    entries_of(yaml.icons@.take(i + 1)) == before + mapping@,
                    j <= mapping@.len(),
                    icons@.len() == before.len() + j,
                    forall|k: int|
                        0 <= k < icons@.len() ==> entry_fine(#[trigger] (before + mapping@)[k]),
                    forall|k: int|
                        0 <= k < icons@.len() ==> entry_property(
                            #[trigger] icons@[k],
                            (before + mapping@)[k],
                        ),
                decreases mapping@.len() - j,
            {
                let ghost at = before.len() + j;
                match &mapping[j] {
                    (ConfigValue::Text(key), ConfigValue::List(seq)) => {
                        if text_is(key.as_str(), "class_name") || text_is(key.as_str(), "window_title") {
                            match get_properties(key.as_str(), seq) {
                                Ok(p) => {
                                    icons.push(p);
                                },
                                Err(e) => {
                                    proof {
                                        assert((before + mapping@)[at] == mapping@[j as int]);
                                        lemma_entries_prefix(yaml.icons@, i + 1);
                                        assert(entries_of(yaml.icons@.take(i + 1))[at] == entries_of(
                                            yaml.icons@,
                                        )[at]);
                                        assert(!entry_fine(entries_of(yaml.icons@)[at]));
                                    }
                                    return Err(e);
                                },
                            }
                        } else {
                            proof {
                                assert((before + mapping@)[at] == mapping@[j as int]);
                                lemma_entries_prefix(yaml.icons@, i + 1);
                            }
                            return Err(ParseError::ParseFailed(String::from_str("Expected 'class_name' or 'window_title' -> sequence")));
                        }
                    },
                    _ => {
                        proof {
                            assert((before + mapping@)[at] == mapping@[j as int]);
                            lemma_entries_prefix(yaml.icons@, i + 1);
                        }
                        return Err(ParseError::ParseFailed(String::from_str("Expected 'class_name' or 'window_title' -> sequence")));
                    },
                }
                proof {
                    assert((before + mapping@)[at] == mapping@[j as int]);
                }
                j += 1;
            }
            i += 1;
        }
        proof {
            assert(yaml.icons@.take(yaml.icons@.len() as int) =~= yaml.icons@);
        }
        Ok(Icons { icons, tick_rate: yaml.tick_rate })
    }
}

/// The entries of the first `i` mappings come first among all entries.
proof fn lemma_entries_prefix(maps: Seq<Vec<(ConfigValue, ConfigValue)>>, i: int)
    requires
        0 <= i <= maps.len(),
    ensures
        entries_of(maps.take(i)).len() <= entries_of(maps).len(),
        forall|k: int|
            0 <= k < entries_of(maps.take(i)).len() ==> #[trigger] entries_of(maps.take(i))[k]
                == entries_of(maps)[k],
    decreases maps.len() - i,
{
    if i < maps.len() {
        lemma_entries_prefix(maps, i + 1);
        assert(maps.take(i + 1).drop_last() =~= maps.take(i));
        let a = entries_of(maps.take(i));
        let b = entries_of(maps.take(i + 1));
        assert(b == a + maps.take(i + 1).last()@);
        assert forall|k: int| 0 <= k < a.len() implies #[trigger] a[k] == entries_of(maps)[k] by {
            assert(a[k] == b[k]);
        }
    } else {
        assert(maps.take(i) =~= maps);
    }
}

/// Whether `v` is a rule mapping that lacks a predicate or an icon, and so
/// makes no rule.
pub open spec fn is_skipped(v: ConfigValue) -> bool {
    match v {
        ConfigValue::Mapping(m) => find_predicate(m@, 0) is None || find_icon(m@, 0) is None,
        _ => false,
    }
}

/// The positions below `k` of the mappings of `s` that make no rule.
pub open spec fn skipped_positions(s: Seq<ConfigValue>, k: int) -> Seq<usize>
    decreases k,
{
    if 0 < k <= s.len() {
        let prev = skipped_positions(s, k - 1);
        if is_skipped(s[k - 1]) {
            prev.push((k - 1) as usize)
        } else {
            prev
        }
    } else {
        seq![]
    }
}

/// The positions, in order, of the mappings of `seq` that `get_properties`
/// skips because they lack a predicate or an icon.
pub fn skipped_mappings(seq: &Vec<ConfigValue>) -> (r: Vec<usize>)
    ensures
        r@ == skipped_positions(seq@, seq@.len() as int),
{
    let mut out: Vec<usize> = Vec::new();
    let mut i: usize = 0;
    while i < seq.len()
        invariant
            i <= seq@.len(),
            out@ == skipped_positions(seq@, i as int),
        decreases seq@.len() - i,
    {
        match &seq[i] {
            ConfigValue::Mapping(m) => {
                let skipped = find_predicate_entry(m).is_none() || find_icon_entry(m).is_none();
                if skipped {
                    out.push(i);
                }
            },
            _ => {},
        }
        i += 1;
    }
    out
}

} // verus!
