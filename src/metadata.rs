//! Optional frontmatter metadata: tags, the overall yield, named sizes and any
//! other string-valued keys.
use vstd::prelude::*;
use crate::amount::{Amount, parse_amount};
use crate::md_parser::{Frontmatter, MDError, MDResult};
use crate::text::{
    all_ws, chars_of, is_alnum, is_alphanumeric, is_ws, lemma_trim_start_append, lemma_trim_ws_suffix, starts_with,
    string_of, trim, trim_chars, trim_end, trim_start,
};
use crate::unit::{
    Distance, Nominal, Quantity, QuantityOf, Unit, UnitTrait, all_ascii_ws, amount_part, decodes_to,
    lemma_parts_space_suffix, unit_part,
};
use crate::yaml::{YamlEntry, YamlValue};

verus! {

/// Marks a size as measured across a circle.
#[derive(Clone, Copy, Debug, PartialEq, Eq, Structural)]
pub enum UnitMod {
    RadialDistance,
}

/// A named size: a distance, optionally radial.
#[derive(Clone, Copy, Debug, PartialEq)]
pub struct SizeInfo {
    pub quantity: QuantityOf<Distance>,
    pub unit_mod: Option<UnitMod>,
}

/// Metadata of a recipe. `sizes` and `others` hold each key once, in the order
/// in which the keys first came.
#[derive(Debug, PartialEq)]
pub struct Metadata {
    pub tags: Vec<String>,
    pub quantity: Quantity,
    pub sizes: Vec<(String, SizeInfo)>,
    pub others: Vec<(String, String)>,
}

/// No key appears twice.
pub open spec fn keys_unique<V>(v: Seq<(String, V)>) -> bool {
    forall|i: int, j: int| 0 <= i < j < v.len() ==> (#[trigger] v[i]).0@ != (#[trigger] v[j]).0@
}

/// The value stored under `key`, if any.
pub open spec fn lookup_spec<V>(v: Seq<(String, V)>, key: Seq<char>) -> Option<V> {
    if exists|i: int| 0 <= i < v.len() && (#[trigger] v[i]).0@ == key {
        Some(v[choose|i: int| 0 <= i < v.len() && (#[trigger] v[i]).0@ == key].1)
    } else {
        None
    }
}

/// The position of `key` among the entries.
fn position_of<V>(v: &Vec<(String, V)>, key: &String) -> (r: Option<usize>)
    ensures
        match r {
            Some(i) => i < v@.len() && v@[i as int].0@ == key@,
            None => forall|i: int| 0 <= i < v@.len() ==> (#[trigger] v@[i]).0@ != key@,
        },
{
    let mut i: usize = 0;
    while i < v.len()
        invariant
            i <= v@.len(),
            forall|k: int| 0 <= k < i ==> (#[trigger] v@[k]).0@ != key@,
        decreases v@.len() - i,
    {
        if v[i].0 == *key {
            return Some(i);
        }
        i = i + 1;
    }
    None
}

/// The value stored under `key`, if any.
pub fn lookup<'a, V>(v: &'a Vec<(String, V)>, key: &str) -> (r: Option<&'a V>)
    requires
        keys_unique(v@),
    ensures
        match lookup_spec(v@, key@) {
            Some(x) => r == Some(&x),
            None => r is None,
        },
{
    let k = String::from_str(key);
    match position_of(v, &k) {
        Some(i) => {
            proof {
                lemma_lookup_at(v@, i as int);
            }
            Some(&v[i].1)
        },
        None => None,
    }
}

/// A character allowed in a tag after its `#`.
pub open spec fn is_tag_char(c: char) -> bool {
    is_alnum(c) || c == '/' || c == '-' || c == '_'
}

/// `#` followed by tag characters only.
pub open spec fn tag_ok(t: Seq<char>) -> bool {
    t.len() > 0 && t[0] == '#' && forall|i: int| 1 <= i < t.len() ==> is_tag_char(#[trigger] t[i])
}

/// The value is a sequence of valid tags.
pub open spec fn tags_ok(v: YamlValue) -> bool {
    v matches YamlValue::Sequence(items) && forall|k: int|
        0 <= k < items@.len() ==> (#[trigger] items@[k] matches YamlValue::Str(s) && tag_ok(s@))
}

/// The text of a size, without surrounding white space and a trailing degree sign.
pub open spec fn size_text(s: Seq<char>) -> Seq<char> {
    let t = trim(s);
    if t.len() > 0 && t.last() == '°' {
        t.drop_last()
    } else {
        t
    }
}

/// `info` is what the size text `s` reads as.
pub open spec fn size_of(info: SizeInfo, s: Seq<char>) -> bool {
    let t = trim(s);
    let q = size_text(s);
    &&& info.unit_mod == (if t.len() > 0 && t.last() == '°' {
        Some(UnitMod::RadialDistance)
    } else {
        None
    })
    &&& Distance::spec_decode(unit_part(q)) == Some(info.quantity.unit)
    &&& parse_amount(amount_part(q)) == Ok::<Amount, crate::amount::ParseAmountError>(info.quantity.amount)
}

/// The size text names a distance with an amount that reads.
pub open spec fn size_ok(s: Seq<char>) -> bool {
    Distance::spec_decode(unit_part(size_text(s))) is Some && parse_amount(amount_part(size_text(s))) is Ok
}

pub open spec fn size_prefix() -> Seq<char> {
    seq!['s', 'i', 'z', 'e', ' ', '|', ' ']
}

/// What a key means.
pub enum KeyKind {
    Tags,
    Yield,
    Size,
    Other,
}

pub open spec fn key_kind(k: Seq<char>) -> KeyKind {
    if k == seq!['t', 'a', 'g', 's'] {
        KeyKind::Tags
    } else if k == seq!['q', 'u', 'a', 'n', 't', 'i', 't', 'y'] {
        KeyKind::Yield
    } else if size_prefix().len() <= k.len() && k.subrange(0, 7) == size_prefix() {
        KeyKind::Size
    } else {
        KeyKind::Other
    }
}

/// The entry is valid on its own.
pub open spec fn entry_ok(e: YamlEntry) -> bool {
    match e.key {
        YamlValue::Str(k) => match key_kind(k@) {
            KeyKind::Tags => tags_ok(e.value),
            KeyKind::Yield => e.value matches YamlValue::Str(v) && parse_amount(amount_part(v@)) is Ok,
            KeyKind::Size => k@.len() > 7 && (e.value matches YamlValue::Str(v) && size_ok(v@)),
            KeyKind::Other => e.value is Str,
        },
        _ => false,
    }
}

/// The key of an entry that falls to `others`.
pub open spec fn other_key(e: YamlEntry) -> Option<Seq<char>> {
    match e.key {
        YamlValue::Str(k) => if key_kind(k@) is Other {
            Some(k@)
        } else {
            None
        },
        _ => None,
    }
}

/// No two entries among `es` give the same key to `others`.
pub open spec fn others_distinct(es: Seq<YamlEntry>) -> bool {
    forall|i: int, j: int|
        0 <= i < j < es.len() && (#[trigger] other_key(es[i])) is Some ==> other_key(es[i]) != #[trigger] other_key(es[j])
}

/// The frontmatter is one YAML mapping whose entries are all valid and whose
/// unknown keys are distinct.
pub open spec fn metadata_ok(fm: Frontmatter) -> bool {
    fm.documents matches Ok(docs) && docs@.len() == 1 && (docs@[0] matches YamlValue::Mapping(es)
        && (forall|k: int| 0 <= k < es@.len() ==> entry_ok(#[trigger] es@[k])) && others_distinct(es@))
}

impl SizeInfo {
    /// Reads a distance, with a trailing `°` for a radial one.
    pub fn from_str(s: &str) -> (r: MDResult<SizeInfo>)
        ensures
            r is Ok <==> size_ok(s@),
            r matches Ok(info) ==> size_of(info, s@),
    {
        let cs = chars_of(s);
        let t = trim_chars(cs.as_slice());
        let n = t.len();
        let (text, unit_mod) = if n > 0 && t[n - 1] == '°' {
            (&t[0..n - 1], Some(UnitMod::RadialDistance))
        } else {
            (t, None)
        };
        assert(text@ == size_text(s@)) by {
            if n > 0 && t@.last() == '°' {
                assert(text@ =~= t@.drop_last());
            }
        }
        match QuantityOf::<Distance>::from_chars(text) {
            Ok(quantity) => Ok(SizeInfo { quantity, unit_mod }),
            Err(e) => {
                let mut msg = String::from_str("failed to parse quantity: ");
                msg.append(e.message().as_str());
                Err(MDError::from_message(msg))
            },
        }
    }
}

impl Metadata {
    /// `#` followed by tag characters: the tag without its `#`.
    pub fn get_tag(tag: &str) -> (r: MDResult<String>)
        ensures
            r is Ok <==> tag_ok(tag@),
            r matches Ok(t) ==> t@ == tag@.subrange(1, tag@.len() as int),
    {
        let t = chars_of(tag);
        if t.len() == 0 || t[0] != '#' {
            return Err(MDError::from_message(String::from_str("tag must start with '#' character")));
        }
        let mut i: usize = 1;
        while i < t.len()
            invariant
                1 <= i <= t@.len(),
                t@ == tag@,
                forall|k: int| 1 <= k < i ==> is_tag_char(#[trigger] t@[k]),
            decreases t@.len() - i,
        {
            let c = t[i];
            if !(is_alphanumeric(c) || c == '/' || c == '-' || c == '_') {
                let mut msg = String::from_str("tag contains forbidden characters: ");
                msg.append(tag);
                return Err(MDError::from_message(msg));
            }
            i = i + 1;
        }
        let n = t.len();
        Ok(string_of(&t[1..n]))
    }

    /// Appends the tags of a sequence of tag strings, each without its `#`.
    pub fn parse_tags(value: &YamlValue, tags: &mut Vec<String>) -> (r: MDResult<()>)
        ensures
            r is Ok <==> tags_ok(*value),
            r is Ok ==> (value matches YamlValue::Sequence(items) && final(tags)@.len() == old(tags)@.len()
                + items@.len() && (forall|k: int| 0 <= k < old(tags)@.len() ==> final(tags)@[k] == old(tags)@[k])
                && forall|k: int| 0 <= k < items@.len() ==> (#[trigger] items@[k] matches YamlValue::Str(s)
                    && final(tags)@[old(tags)@.len() + k]@ == s@.subrange(1, s@.len() as int))),
    {
        let items = match value {
            YamlValue::Sequence(items) => items,
            _ => return Err(MDError::from_message(String::from_str("expected sequence under \"tags\""))),
        };
        let ghost start = tags@;
        let mut k: usize = 0;
        while k < items.len()
            invariant
                k <= items@.len(),
                *value == YamlValue::Sequence(*items),
                tags@.len() == start.len() + k,
                forall|j: int| 0 <= j < start.len() ==> tags@[j] == start[j],
                forall|j: int| 0 <= j < k ==> (#[trigger] items@[j] matches YamlValue::Str(s) && tag_ok(s@)
                    && tags@[start.len() + j]@ == s@.subrange(1, s@.len() as int)),
            decreases items@.len() - k,
        {
            let s = match &items[k] {
                YamlValue::Str(s) => s,
                _ => return Err(MDError::from_message(String::from_str("expected string tag"))),
            };
            let t = match Self::get_tag(s.as_str()) {
                Ok(t) => t,
                Err(e) => return Err(e),
            };
            tags.push(t);
            k = k + 1;
        }
        Ok(())
    }

    /// Sets the yield from a string that reads as a quantity.
    pub fn parse_quantity(value: &YamlValue, quantity: &mut Quantity) -> (r: MDResult<()>)
        ensures
            r is Ok <==> (value matches YamlValue::Str(v) && parse_amount(amount_part(v@)) is Ok),
            r is Ok ==> (value matches YamlValue::Str(v) && final(quantity).amount == parse_amount(
                amount_part(v@),
            )->Ok_0 && decodes_to(final(quantity).unit, unit_part(v@))),
            r is Err ==> *final(quantity) == *old(quantity),
    {
        let v = match value {
            YamlValue::Str(v) => v,
            _ => return Err(MDError::from_message(String::from_str("expected string under \"quantity\""))),
        };
        match Quantity::from_str(v.as_str()) {
            Ok(q) => {
                *quantity = q;
                Ok(())
            },
            Err(e) => {
                Err(MDError::from_message(e.message()))
            },
        }
    }

    /// Stores the size `value` under the name `key`, replacing an earlier one.
    pub fn parse_size(key: &str, value: &YamlValue, sizes: &mut Vec<(String, SizeInfo)>) -> (r: MDResult<()>)
        requires
            keys_unique(old(sizes)@),
        ensures
            keys_unique(final(sizes)@),
            r is Ok <==> (key@.len() > 0 && (value matches YamlValue::Str(v) && size_ok(v@))),
            r is Ok ==> (value matches YamlValue::Str(v) && lookup_spec(final(sizes)@, key@) matches Some(info)
                && size_of(info, v@)),
            r is Ok ==> forall|k: Seq<char>| k != key@ ==> lookup_spec(final(sizes)@, k) == lookup_spec(old(sizes)@, k),
            r is Err ==> *final(sizes) == *old(sizes),
    {
        if key.is_empty() {
            return Err(MDError::from_message(String::from_str("sized object must have a name")));
        }
        let v = match value {
            YamlValue::Str(v) => v,
            _ => return Err(MDError::from_message(String::from_str("expected string size attribute"))),
        };
        let info = SizeInfo::from_str(v.as_str())?;
        let name = String::from_str(key);
        let ghost before = sizes@;
        match position_of(sizes, &name) {
            Some(i) => {
                sizes.set(i, (name, info));
                proof {
                    assert forall|a: int, b: int| 0 <= a < b < sizes@.len() implies (#[trigger] sizes@[a]).0@ != (#[trigger] sizes@[b]).0@ by {
                        assert(before[a].0@ != before[b].0@);
                    }
                    lemma_lookup_at(sizes@, i as int);
                    assert forall|k: Seq<char>| k != key@ implies lookup_spec(sizes@, k) == lookup_spec(before, k) by {
                        lemma_lookup_other(before, sizes@, i as int, k);
                    }
                }
            },
            None => {
                sizes.push((name, info));
                proof {
                    assert forall|a: int, b: int| 0 <= a < b < sizes@.len() implies (#[trigger] sizes@[a]).0@ != (#[trigger] sizes@[b]).0@ by {
                        if b < before.len() {
                            assert(before[a].0@ != before[b].0@);
                        }
                    }
                    lemma_lookup_at(sizes@, before.len() as int);
                    assert forall|k: Seq<char>| k != key@ implies lookup_spec(sizes@, k) == lookup_spec(before, k) by {
                        lemma_lookup_pushed(before, sizes@, k);
                    }
                }
            },
        }
        Ok(())
    }

    /// Stores `value` under `key`, which must not be stored yet.
    pub fn parse_others(key: &str, value: &YamlValue, others: &mut Vec<(String, String)>) -> (r: MDResult<()>)
        requires
            keys_unique(old(others)@),
        ensures
            keys_unique(final(others)@),
            r is Ok <==> (value is Str && lookup_spec(old(others)@, key@) is None),
            r is Ok ==> (value matches YamlValue::Str(v) && final(others)@ == old(others)@.push(
                (final(others)@.last().0, final(others)@.last().1),
            ) && final(others)@.last().0@ == key@ && final(others)@.last().1@ == v@),
            r is Err ==> *final(others) == *old(others),
    {
        let v = match value {
            YamlValue::Str(v) => v,
            _ => return Err(MDError::from_message(String::from_str("for unknown keys, only string values are supported"))),
        };
        let name = String::from_str(key);
        match position_of(others, &name) {
            Some(i) => {
                assert(others@[i as int].0@ == key@);
                let mut msg = String::from_str("duplicate metadata key ");
                msg.append(key);
                Err(MDError::from_message(msg))
            },
            None => {
                let ghost before = others@;
                others.push((name, v.clone()));
                proof {
                    assert forall|a: int, b: int| 0 <= a < b < others@.len() implies (#[trigger] others@[a]).0@ != (#[trigger] others@[b]).0@ by {
                        if b < before.len() {
                            assert(before[a].0@ != before[b].0@);
                        }
                    }
                }
                Ok(())
            },
        }
    }
}

/// What the entries read so far say: the tags in order, the text of the last
/// yield, the text of the last size under each name, and the other keys.
pub struct MetaView {
    pub tags: Seq<Seq<char>>,
    pub quantity: Option<Seq<char>>,
    pub sizes: Map<Seq<char>, Seq<char>>,
    pub others: Map<Seq<char>, Seq<char>>,
}

/// The tags of a sequence of tag strings, each without its first character.
pub open spec fn stripped_tags(v: YamlValue) -> Seq<Seq<char>> {
    match v {
        YamlValue::Sequence(items) => items@.map_values(
            |y: YamlValue|
                match y {
                    YamlValue::Str(s) => s@.subrange(1, s@.len() as int),
                    _ => Seq::empty(),
                },
        ),
        _ => Seq::empty(),
    }
}

/// What one valid entry adds.
pub open spec fn apply_entry(m: MetaView, e: YamlEntry) -> MetaView {
    match (e.key, e.value) {
        (YamlValue::Str(k), YamlValue::Str(v)) => match key_kind(k@) {
            KeyKind::Tags => m,
            KeyKind::Yield => MetaView { quantity: Some(v@), ..m },
            KeyKind::Size => MetaView { sizes: m.sizes.insert(k@.subrange(7, k@.len() as int), v@), ..m },
            KeyKind::Other => MetaView { others: m.others.insert(k@, v@), ..m },
        },
        (YamlValue::Str(k), value) => match key_kind(k@) {
            KeyKind::Tags => MetaView { tags: m.tags + stripped_tags(value), ..m },
            _ => m,
        },
        _ => m,
    }
}

/// What the entries say, read in order.
pub open spec fn fold_entries(es: Seq<YamlEntry>) -> MetaView
    decreases es.len(),
{
    if es.len() == 0 {
        MetaView { tags: Seq::empty(), quantity: None, sizes: Map::empty(), others: Map::empty() }
    } else {
        apply_entry(fold_entries(es.drop_last()), es.last())
    }
}

/// The entries of a frontmatter that holds one mapping.
pub open spec fn frontmatter_entries(fm: Frontmatter) -> Seq<YamlEntry> {
    match fm.documents {
        Ok(docs) => match docs@[0] {
            YamlValue::Mapping(es) => es@,
            _ => Seq::empty(),
        },
        Err(_) => Seq::empty(),
    }
}

/// `m` holds what `v` says: the same tags, the yield read from the last yield
/// text (one nominal unit when none), each size read from its text, and the
/// other keys with their values.
pub open spec fn meta_matches(m: Metadata, v: MetaView) -> bool {
    &&& m.tags@.len() == v.tags.len()
    &&& forall|i: int| 0 <= i < v.tags.len() ==> (#[trigger] m.tags@[i])@ == v.tags[i]
    &&& match v.quantity {
        None => m.quantity.unit == Unit::Nominal(Nominal) && m.quantity.amount == (Amount { numer: 1, denom: 1 }),
        Some(t) => m.quantity.amount == parse_amount(amount_part(t))->Ok_0 && decodes_to(m.quantity.unit, unit_part(t)),
    }
    &&& forall|n: Seq<char>| #[trigger] v.sizes.contains_key(n) <==> lookup_spec(m.sizes@, n) is Some
    &&& forall|n: Seq<char>| #[trigger] v.sizes.contains_key(n) ==> size_of(lookup_spec(m.sizes@, n)->Some_0, v.sizes[n])
    &&& forall|k: Seq<char>| #[trigger] v.others.contains_key(k) <==> lookup_spec(m.others@, k) is Some
    &&& forall|k: Seq<char>| #[trigger] v.others.contains_key(k) ==> lookup_spec(m.others@, k)->Some_0@ == v.others[k]
}

fn key_kind_of(k: &[char]) -> (r: KeyKind)
    ensures
        r == key_kind(k@),
{
    let tags = chars_of("tags");
    let quantity = chars_of("quantity");
    let prefix = chars_of("size | ");
    proof {
        reveal_strlit("tags");
        reveal_strlit("quantity");
        reveal_strlit("size | ");
        assert(tags@ =~= seq!['t', 'a', 'g', 's']);
        assert(quantity@ =~= seq!['q', 'u', 'a', 'n', 't', 'i', 't', 'y']);
        assert(prefix@ =~= size_prefix());
    }
    if k.len() == tags.len() && starts_with(k, tags.as_slice()) {
        assert(k@ =~= k@.subrange(0, 4));
        KeyKind::Tags
    } else if k.len() == quantity.len() && starts_with(k, quantity.as_slice()) {
        assert(k@ =~= k@.subrange(0, 8));
        KeyKind::Yield
    } else if starts_with(k, prefix.as_slice()) {
        assert(k@ != seq!['t', 'a', 'g', 's']);
        assert(k@ != seq!['q', 'u', 'a', 'n', 't', 'i', 't', 'y']) by {
            if k@ == seq!['q', 'u', 'a', 'n', 't', 'i', 't', 'y'] {
                assert(k@[0] == 'q');
                assert(k@.subrange(0, 7)[0] == 's');
            }
        }
        KeyKind::Size
    } else {
        proof {
            if k@ == seq!['t', 'a', 'g', 's'] {
                assert(k@.subrange(0, 4) =~= k@);
            }
            if k@ == seq!['q', 'u', 'a', 'n', 't', 'i', 't', 'y'] {
                assert(k@.subrange(0, 8) =~= k@);
            }
        }
        KeyKind::Other
    }
}

impl Metadata {
    /// The neutral metadata: no tags, a yield of one, no sizes, no other keys.
    pub fn empty() -> (r: Metadata)
        ensures
            r.tags@.len() == 0,
            r.quantity.unit == Unit::Nominal(Nominal),
            r.quantity.amount == (Amount { numer: 1, denom: 1 }),
            r.sizes@.len() == 0,
            r.others@.len() == 0,
    {
        Metadata {
            tags: Vec::new(),
            quantity: Quantity::new(Unit::Nominal(Nominal), Amount::whole(1)),
            sizes: Vec::new(),
            others: Vec::new(),
        }
    }

    /// Reads the frontmatter: one YAML mapping with `tags`, `quantity`,
    /// `size | <name>` and other string-valued keys; see `metadata_ok`.
    #[verifier::rlimit(100)]
    pub fn parse(yaml: &Frontmatter) -> (r: MDResult<Metadata>)
        ensures
            r is Ok <==> metadata_ok(*yaml),
            r matches Ok(m) ==> keys_unique(m.sizes@) && keys_unique(m.others@),
            r matches Ok(m) ==> meta_matches(m, fold_entries(frontmatter_entries(*yaml))),
    {
        let docs = match &yaml.documents {
            Ok(docs) => docs,
            Err(e) => return Err(e.clone()),
        };
        if docs.len() != 1 {
            return Err(MDError::from_message(String::from_str("expected single YAML document in frontmatter")));
        }
        let entries = match &docs[0] {
            YamlValue::Mapping(entries) => entries,
            _ => return Err(MDError::from_message(String::from_str("expected top-level element to be mapping"))),
        };
        let mut this = Metadata::empty();
        let mut i: usize = 0;
        while i < entries.len()
            invariant
                i <= entries@.len(),
                yaml.documents == Ok::<Vec<YamlValue>, MDError>(*docs),
                docs@.len() == 1,
                docs@[0] == YamlValue::Mapping(*entries),
                keys_unique(this.sizes@),
                keys_unique(this.others@),
                forall|j: int| 0 <= j < i ==> entry_ok(#[trigger] entries@[j]),
                forall|a: int, b: int|
                    0 <= a < b < i && (#[trigger] other_key(entries@[a])) is Some ==> other_key(entries@[a]) != #[trigger] other_key(entries@[b]),
                forall|j: int| 0 <= j < i && (#[trigger] other_key(entries@[j])) is Some ==> lookup_spec(this.others@, other_key(entries@[j])->Some_0) is Some,
                forall|p: int| 0 <= p < this.others@.len() ==> exists|j: int| 0 <= j < i && #[trigger] other_key(entries@[j]) == Some((#[trigger] this.others@[p]).0@),
                meta_matches(this, fold_entries(entries@.take(i as int))),
            decreases entries@.len() - i,
        {
            let entry = &entries[i];
            let ghost view = fold_entries(entries@.take(i as int));
            let ghost old_this_sizes = this.sizes@;
            let ghost old_this_others = this.others@;
            let ghost old_tags = this.tags@;
            proof {
                assert(entries@.take(i + 1).drop_last() =~= entries@.take(i as int));
                assert(entries@.take(i + 1).last() == entries@[i as int]);
            }
            let key = match &entry.key {
                YamlValue::Str(k) => k,
                _ => return Err(MDError::from_message(String::from_str("expected string key"))),
            };
            let kc = chars_of(key.as_str());
            match key_kind_of(kc.as_slice()) {
                KeyKind::Tags => {
                    Self::parse_tags(&entry.value, &mut this.tags)?;
                    proof {
                        let nv = fold_entries(entries@.take(i + 1));
                        assert(nv.tags =~= view.tags + stripped_tags(entry.value));
                        assert forall|j: int| 0 <= j < nv.tags.len() implies (#[trigger] this.tags@[j])@ == nv.tags[j] by {
                            if j >= old_tags.len() {
                                let items = entry.value->Sequence_0;
                                assert(items@[j - old_tags.len()] is Str);
                            }
                        }
                    }
                },
                KeyKind::Yield => {
                    Self::parse_quantity(&entry.value, &mut this.quantity)?;
                },
                KeyKind::Size => {
                    let n = kc.len();
                    let name = string_of(&kc[7..n]);
                    Self::parse_size(name.as_str(), &entry.value, &mut this.sizes)?;
                    proof {
                        let nv = fold_entries(entries@.take(i + 1));
                        assert(name@ == key@.subrange(7, key@.len() as int));
                        assert forall|m: Seq<char>| #[trigger] nv.sizes.contains_key(m) <==> lookup_spec(this.sizes@, m) is Some by {
                            if m != name@ {
                                assert(lookup_spec(this.sizes@, m) == lookup_spec(old_this_sizes, m));
                            }
                        }
                        assert forall|m: Seq<char>| #[trigger] nv.sizes.contains_key(m) implies size_of(lookup_spec(this.sizes@, m)->Some_0, nv.sizes[m]) by {
                            if m != name@ {
                                assert(lookup_spec(this.sizes@, m) == lookup_spec(old_this_sizes, m));
                            }
                        }
                    }
                },
                KeyKind::Other => {
                    let ghost before = this.others@;
                    match Self::parse_others(key.as_str(), &entry.value, &mut this.others) {
                        Ok(()) => {
                            proof {
                                lemma_lookup_at(this.others@, before.len() as int);
                                assert forall|j: int| 0 <= j < i + 1 && (#[trigger] other_key(entries@[j])) is Some implies lookup_spec(this.others@, other_key(entries@[j])->Some_0) is Some by {
                                    if j < i {
                                        let kj = other_key(entries@[j])->Some_0;
                                        if kj != key@ {
                                            lemma_lookup_pushed(before, this.others@, kj);
                                        }
                                    }
                                }
                                assert forall|p: int| 0 <= p < this.others@.len() implies exists|j: int| 0 <= j < i + 1 && #[trigger] other_key(entries@[j]) == Some((#[trigger] this.others@[p]).0@) by {
                                    if p < before.len() {
                                        assert(this.others@[p] == before[p]);
                                    } else {
                                        assert(other_key(entries@[i as int]) == Some(this.others@[p].0@));
                                    }
                                }
                                assert forall|a: int, b: int| 0 <= a < b < i + 1 && (#[trigger] other_key(entries@[a])) is Some implies other_key(entries@[a]) != #[trigger] other_key(entries@[b]) by {
                                    if b == i && other_key(entries@[a]) == other_key(entries@[b]) {
                                        assert(lookup_spec(before, key@) is Some);
                                    }
                                }
                                let nv = fold_entries(entries@.take(i + 1));
                                assert forall|m: Seq<char>| #[trigger] nv.others.contains_key(m) <==> lookup_spec(this.others@, m) is Some by {
                                    if m != key@ {
                                        lemma_lookup_pushed(before, this.others@, m);
                                    }
                                }
                                assert forall|m: Seq<char>| #[trigger] nv.others.contains_key(m) implies lookup_spec(this.others@, m)->Some_0@ == nv.others[m] by {
                                    if m != key@ {
                                        lemma_lookup_pushed(before, this.others@, m);
                                    }
                                }
                            }
                        },
                        Err(e) => {
                            proof {
                                if entry.value is Str {
                                    assert(lookup_spec(before, key@) is Some);
                                    let w = choose|w: int| 0 <= w < before.len() && (#[trigger] before[w]).0@ == key@;
                                    let j = choose|j: int| 0 <= j < i && #[trigger] other_key(entries@[j]) == Some(before[w].0@);
                                    assert(other_key(entries@[j]) == other_key(entries@[i as int]));
                                    assert(!others_distinct(entries@));
                                }
                            }
                            return Err(e);
                        },
                    }
                },
            }
            proof {
                assert(entry_ok(entries@[i as int]));
            }
            i = i + 1;
        }
        assert(entries@.take(entries@.len() as int) =~= entries@);
        Ok(this)
    }
}

impl Default for Metadata {
    fn default() -> (r: Metadata)
        ensures
            r.tags@.len() == 0,
            r.quantity.unit == Unit::Nominal(Nominal),
            r.quantity.amount == (Amount { numer: 1, denom: 1 }),
            r.sizes@.len() == 0,
            r.others@.len() == 0,
    {
        Metadata::empty()
    }
}

/// A tag that does not start with `#`, or that holds a space, is refused.
pub proof fn lemma_tag_rejections(t: Seq<char>)
    requires
        t.len() == 0 || t[0] != '#' || exists|i: int| 0 <= i < t.len() && t[i] == ' ',
    ensures
        !tag_ok(t),
{
    if t.len() > 0 && t[0] == '#' {
        let i = choose|i: int| 0 <= i < t.len() && t[i] == ' ';
        assert(!is_tag_char(t[i]));
    }
}

/// Frontmatter in which two entries give the same unknown key is refused.
pub proof fn lemma_duplicate_key_rejected(fm: Frontmatter, es: Seq<YamlEntry>, i: int, j: int)
    requires
        fm.documents matches Ok(docs) && docs@.len() == 1 && (docs@[0] matches YamlValue::Mapping(m) && m@ == es),
        0 <= i < j < es.len(),
        other_key(es[i]) is Some,
        other_key(es[i]) == other_key(es[j]),
    ensures
        !metadata_ok(fm),
{
}

/// Trimming text that ends with a degree sign keeps the sign last.
proof fn lemma_trim_degree(x: Seq<char>, w: Seq<char>)
    requires
        all_ws(w),
    ensures
        trim(x + seq!['°'] + w) == trim_start(x) + seq!['°'],
{
    lemma_trim_ws_suffix(x + seq!['°'], w);
    lemma_trim_start_append(x, seq!['°']);
    assert(!is_ws('°'));
    assert(trim_start(seq!['°']) == seq!['°']);
    let t = trim_start(x) + seq!['°'];
    assert(trim_start(x + seq!['°']) == t);
    assert(t.last() == '°');
    assert(trim_end(t) == t);
}

/// White space around a size and around its degree sign changes nothing: the
/// text reads as the same radial size as without it. Before the sign the white
/// space is ASCII.
pub proof fn lemma_radial_spacing(
    w0: Seq<char>,
    x: Seq<char>,
    w1: Seq<char>,
    w2: Seq<char>,
    info: SizeInfo,
)
    requires
        all_ws(w0),
        all_ascii_ws(w1),
        all_ws(w2),
    ensures
        size_ok(w0 + x + w1 + seq!['°'] + w2) == size_ok(x + seq!['°']),
        size_of(info, w0 + x + w1 + seq!['°'] + w2) == size_of(info, x + seq!['°']),
        size_of(info, x + seq!['°']) ==> info.unit_mod == Some(UnitMod::RadialDistance),
{
    let e = Seq::<char>::empty();
    let a = w0 + x + w1 + seq!['°'] + w2;
    let b = x + seq!['°'];
    assert(all_ws(w1)) by {
        assert forall|i: int| 0 <= i < w1.len() implies is_ws(#[trigger] w1[i]) by {
            assert(crate::unit::is_ascii_ws(w1[i]));
        }
    }
    assert(all_ws(e));
    assert(a =~= (w0 + x + w1) + seq!['°'] + w2);
    lemma_trim_degree(w0 + x + w1, w2);
    assert(b =~= x + seq!['°'] + e);
    lemma_trim_degree(x, e);
    crate::text::lemma_trim_start_all_ws(w0);
    lemma_trim_start_append(w0, x + w1);
    assert(w0 + x + w1 =~= w0 + (x + w1));
    let u = trim_start(x + w1);
    let v = trim_start(x);
    assert(trim_start(w0 + x + w1) == u);
    assert(trim(a) == u + seq!['°']);
    assert(trim(b) == v + seq!['°']);
    assert((u + seq!['°']).drop_last() =~= u);
    assert((v + seq!['°']).drop_last() =~= v);
    assert(size_text(a) == u);
    assert(size_text(b) == v);
    lemma_trim_start_append(x, w1);
    if v.len() > 0 {
        assert(u == v + w1);
        lemma_parts_space_suffix(v, w1);
    } else {
        crate::text::lemma_trim_start_all_ws(w1);
        assert(u =~= v);
    }
}

/// In a map with unique keys, the key at `i` finds the value at `i`.
pub proof fn lemma_lookup_at<V>(v: Seq<(String, V)>, i: int)
    requires
        keys_unique(v),
        0 <= i < v.len(),
    ensures
        lookup_spec(v, v[i].0@) == Some(v[i].1),
{
    let key = v[i].0@;
    let w = choose|w: int| 0 <= w < v.len() && (#[trigger] v[w]).0@ == key;
    assert(w == i) by {
        if w < i {
            assert(v[w].0@ != v[i].0@);
        } else if w > i {
            assert(v[i].0@ != v[w].0@);
        }
    }
}

proof fn lemma_lookup_other<V>(before: Seq<(String, V)>, after: Seq<(String, V)>, i: int, k: Seq<char>)
    requires
        keys_unique(before),
        keys_unique(after),
        0 <= i < before.len(),
        after.len() == before.len(),
        after[i].0@ == before[i].0@,
        forall|j: int| 0 <= j < before.len() && j != i ==> after[j] == before[j],
        k != before[i].0@,
    ensures
        lookup_spec(after, k) == lookup_spec(before, k),
{
    if exists|j: int| 0 <= j < before.len() && (#[trigger] before[j]).0@ == k {
        let j = choose|j: int| 0 <= j < before.len() && (#[trigger] before[j]).0@ == k;
        assert(after[j] == before[j]);
        lemma_lookup_at(before, j);
        lemma_lookup_at(after, j);
    } else {
        assert forall|j: int| 0 <= j < after.len() implies (#[trigger] after[j]).0@ != k by {
            if j != i {
                assert(after[j] == before[j]);
            }
        }
    }
}

proof fn lemma_lookup_pushed<V>(before: Seq<(String, V)>, after: Seq<(String, V)>, k: Seq<char>)
    requires
        keys_unique(before),
        keys_unique(after),
        after.len() == before.len() + 1,
        forall|j: int| 0 <= j < before.len() ==> after[j] == before[j],
        k != after.last().0@,
    ensures
        lookup_spec(after, k) == lookup_spec(before, k),
{
    if exists|j: int| 0 <= j < before.len() && (#[trigger] before[j]).0@ == k {
        let j = choose|j: int| 0 <= j < before.len() && (#[trigger] before[j]).0@ == k;
        assert(after[j] == before[j]);
        lemma_lookup_at(before, j);
        lemma_lookup_at(after, j);
    } else {
        assert forall|j: int| 0 <= j < after.len() implies (#[trigger] after[j]).0@ != k by {
            if j < before.len() {
                assert(after[j] == before[j]);
            }
        }
    }
}

} // verus!
