//! Lookup in a schema tree: attribute inheritance, the rules by which a node
//! answers a query, the walk with its regional fallback, and the repository
//! that remembers what was found.

use crate::schema::{
    attribute_models, attribute_of, find_attribute, lemma_children, text_model, ElementModel,
    XmlElement,
};
use crate::text::{
    all_digits, chars_of, chars_without, decimal_value, list_contains, list_has, parse_decimal,
    same_chars_ignoring_case, same_ignoring_case, same_text, upper_chars, upper_text, without_char,
};
use vstd::prelude::*;

verus! {

/// What is asked of a schema: the identifier of an item, the protocol and
/// the region it is to belong to, and the direction where one is asked for.
pub struct Query {
    pub id: Seq<char>,
    pub protocol: Seq<char>,
    pub region: Seq<char>,
    pub dir: Option<u8>,
}

/// The region that schema files annotate where no other is named, and under
/// which a query is repeated when its own region finds nothing.
pub open spec fn fallback_region() -> Seq<char> {
    "南网"@
}

/// The attributes without those named `name`.
pub open spec fn without_name(attrs: Seq<(Seq<char>, Seq<char>)>, name: Seq<char>) -> Seq<
    (Seq<char>, Seq<char>),
>
    decreases attrs.len(),
{
    if attrs.len() == 0 {
        Seq::empty()
    } else if attrs.last().0 == name {
        without_name(attrs.drop_last(), name)
    } else {
        without_name(attrs.drop_last(), name).push(attrs.last())
    }
}

/// The attributes that hold at a node: those inherited from its ancestors,
/// `id` left out, then its own, which win where a name stands in both.
pub open spec fn merged_attributes(
    own: Seq<(Seq<char>, Seq<char>)>,
    inherited: Seq<(Seq<char>, Seq<char>)>,
) -> Seq<(Seq<char>, Seq<char>)> {
    without_name(inherited, "id"@) + own
}

/// A region as it is compared: without double quotes, ASCII letters in
/// upper case.
pub open spec fn clean_region(region: Seq<char>) -> Seq<char> {
    upper_text(without_char(region, '"'))
}

/// The direction that a `dir` attribute names: its decimal value where it is
/// one of at most 255, else 0.
pub open spec fn dir_value(text: Seq<char>) -> int {
    if text.len() > 0 && all_digits(text) && decimal_value(text) <= 255 {
        decimal_value(text) as int
    } else {
        0
    }
}

/// Whether the attributes admit the direction asked for: any, where none is
/// asked for or the attributes name none.
pub open spec fn dir_fits(attrs: Seq<(Seq<char>, Seq<char>)>, dir: Option<u8>) -> bool {
    match dir {
        None => true,
        Some(d) => match attribute_of(attrs, "dir"@) {
            None => true,
            Some(text) => dir_value(text) == d,
        },
    }
}

/// Whether the attributes belong to the protocol and the region asked for,
/// and admit the direction: the `protocol` attribute is a comma-separated
/// list that holds the protocol in upper case, the `region` attribute one
/// that holds the cleaned region.
pub open spec fn valid_item(
    attrs: Seq<(Seq<char>, Seq<char>)>,
    protocol: Seq<char>,
    region: Seq<char>,
    dir: Option<u8>,
) -> bool {
    match attribute_of(attrs, "protocol"@) {
        None => false,
        Some(protocols) => list_has(protocols, upper_text(protocol)) && match attribute_of(
            attrs,
            "region"@,
        ) {
            None => false,
            Some(regions) => list_has(regions, clean_region(region)) && dir_fits(attrs, dir),
        },
    }
}

/// Whether a node with these merged attributes answers the query.
pub open spec fn node_matches(attrs: Seq<(Seq<char>, Seq<char>)>, q: Query) -> bool {
    match attribute_of(attrs, "id"@) {
        None => false,
        Some(id) => same_ignoring_case(id, q.id) && valid_item(attrs, q.protocol, q.region, q.dir),
    }
}

/// The first node, in document order, that answers the query in the subtree
/// of `node`, whose ancestors hand down `inherited`.
pub open spec fn find_in(node: ElementModel, inherited: Seq<(Seq<char>, Seq<char>)>, q: Query) -> Option<
    ElementModel,
>
    decreases node, 1int, 0int,
{
    let merged = merged_attributes(node.attributes, inherited);
    if node_matches(merged, q) {
        Some(node)
    } else {
        find_among(node.children, merged, q, 0)
    }
}

/// The first node that answers the query in the subtrees of the children
/// from `from` on.
pub open spec fn find_among(
    children: Seq<ElementModel>,
    inherited: Seq<(Seq<char>, Seq<char>)>,
    q: Query,
    from: int,
) -> Option<ElementModel>
    decreases children, 0int, children.len() - from,
{
    if from < 0 || from >= children.len() {
        None
    } else {
        match find_in(children[from], inherited, q) {
            Some(found) => Some(found),
            None => find_among(children, inherited, q, from + 1),
        }
    }
}

/// The query under another region.
pub open spec fn in_region(q: Query, region: Seq<char>) -> Query {
    Query { region, ..q }
}

/// Whether a query that finds nothing is repeated under the fallback region.
pub open spec fn falls_back(q: Query) -> bool {
    !same_ignoring_case(q.region, fallback_region())
}

/// What a schema answers: the first match under the region asked for or,
/// where there is none and that region is not the fallback region, the first
/// match under the fallback region.
pub open spec fn resolve(root: ElementModel, q: Query) -> Option<ElementModel> {
    match find_in(root, root.attributes, q) {
        Some(found) => Some(found),
        None => if falls_back(q) {
            find_in(root, root.attributes, in_region(q, fallback_region()))
        } else {
            None
        },
    }
}

/// The number of walks through the tree that answering a query takes.
pub open spec fn walks_of(root: ElementModel, q: Query) -> nat {
    if find_in(root, root.attributes, q) is None && falls_back(q) {
        2
    } else {
        1
    }
}

/// The key under which the answer to a query is remembered: identifier,
/// protocol and region as they were asked, joined by colons.
pub open spec fn cache_key(id: Seq<char>, protocol: Seq<char>, region: Seq<char>) -> Seq<char> {
    id + ":"@ + protocol + ":"@ + region
}

/// The model of an optional node.
pub open spec fn option_model(e: Option<XmlElement>) -> Option<ElementModel> {
    match e {
        Some(x) => Some(x@),
        None => None,
    }
}

/// The answers that a cache holds, each under its key.
pub open spec fn cache_models(entries: Seq<(String, Option<XmlElement>)>) -> Seq<
    (Seq<char>, Option<ElementModel>),
> {
    Seq::new(entries.len(), |i: int| (entries[i].0@, option_model(entries[i].1)))
}

/// The answer remembered under `key` among the first `n` entries: that of
/// the last entry with that key.
pub open spec fn cached_upto(
    entries: Seq<(Seq<char>, Option<ElementModel>)>,
    key: Seq<char>,
    n: int,
) -> Option<Option<ElementModel>>
    decreases n,
{
    if n <= 0 || n > entries.len() {
        None
    } else if entries[n - 1].0 == key {
        Some(entries[n - 1].1)
    } else {
        cached_upto(entries, key, n - 1)
    }
}

/// The answer remembered under `key`: `None` where nothing is remembered,
/// `Some(None)` where it is remembered that nothing matches.
pub open spec fn cached(entries: Seq<(Seq<char>, Option<ElementModel>)>, key: Seq<char>) -> Option<
    Option<ElementModel>,
> {
    cached_upto(entries, key, entries.len() as int)
}

/// What a repository holds: the tree if one is loaded, the remembered
/// answers, the number of walks through the tree made so far, and the path
/// of the document that the tree was read from, if it has one.
pub struct RepositoryModel {
    pub tree: Option<ElementModel>,
    pub cache: Seq<(Seq<char>, Option<ElementModel>)>,
    pub walks: nat,
    pub path: Option<Seq<char>>,
}

/// A count of walks raised by `by`, held at `u64::MAX`.
pub open spec fn walks_after(walks: nat, by: nat) -> nat {
    if walks + by > u64::MAX {
        u64::MAX as nat
    } else {
        walks + by
    }
}

/// One lookup: the answer, and the repository after it. An answer that is
/// remembered is given without a walk and changes nothing. Any other is
/// found by walking the tree and remembered under the key of the query as it
/// was asked. A repository without a tree answers nothing and remembers
/// nothing.
pub open spec fn find_step(s: RepositoryModel, q: Query) -> (Option<ElementModel>, RepositoryModel) {
    match s.tree {
        None => (None, s),
        Some(root) => {
            let key = cache_key(q.id, q.protocol, q.region);
            match cached(s.cache, key) {
                Some(hit) => (hit, s),
                None => {
                    let answer = resolve(root, q);
                    (
                        answer,
                        RepositoryModel {
                            cache: s.cache.push((key, answer)),
                            walks: walks_after(s.walks, walks_of(root, q)),
                            ..s
                        },
                    )
                },
            }
        },
    }
}

/// A lookup that is repeated gives the same answer and leaves the
/// repository as the first lookup left it: no walk is made again.
pub proof fn law_repeated_find(s: RepositoryModel, q: Query)
    ensures
        find_step(find_step(s, q).1, q).0 == find_step(s, q).0,
        find_step(find_step(s, q).1, q).1 == find_step(s, q).1,
        find_step(find_step(s, q).1, q).1.walks == find_step(s, q).1.walks,
{
    let key = cache_key(q.id, q.protocol, q.region);
    match s.tree {
        None => {},
        Some(root) => {
            match cached(s.cache, key) {
                Some(hit) => {},
                None => {
                    let after = find_step(s, q).1;
                    assert(after.cache.last().0 == key);
                    assert(cached(after.cache, key) == Some(resolve(root, q)));
                },
            }
        },
    }
}

/// An item that is found under the fallback region is found under every
/// region: a query under another region that has no match of its own gets
/// the match of the fallback region.
pub proof fn law_region_fallback(root: ElementModel, q: Query)
    requires
        find_in(root, root.attributes, in_region(q, fallback_region())) is Some,
    ensures
        resolve(root, q) is Some,
        find_in(root, root.attributes, q) is None ==> resolve(root, q) == find_in(
            root,
            root.attributes,
            in_region(q, fallback_region()),
        ),
{
    if find_in(root, root.attributes, q) is None && !falls_back(q) {
        lemma_clean_region_same(q.region, fallback_region());
        lemma_same_region_same_answer(root, root.attributes, q, fallback_region());
    }
}

/// Regions that are equal but for the case of ASCII letters are compared as
/// one region.
pub proof fn lemma_clean_region_same(a: Seq<char>, b: Seq<char>)
    requires
        same_ignoring_case(a, b),
    ensures
        clean_region(a) == clean_region(b),
    decreases a.len(),
{
    if a.len() > 0 {
        let x = a.drop_last();
        let y = b.drop_last();
        assert forall|i: int| 0 <= i < x.len() implies crate::text::lower_char(#[trigger] x[i])
            == crate::text::lower_char(y[i]) by {
            assert(x[i] == a[i]);
            assert(y[i] == b[i]);
        }
        lemma_clean_region_same(x, y);
        let p = a.last();
        let r = b.last();
        assert(crate::text::lower_char(a[a.len() - 1]) == crate::text::lower_char(
            b[a.len() - 1],
        ));
        assert((p == '"') == (r == '"'));
        assert(crate::text::upper_char(p) == crate::text::upper_char(r));
        let wa = without_char(x, '"');
        let wb = without_char(y, '"');
        if p != '"' {
            assert(upper_text(wa.push(p)) =~= upper_text(wa).push(crate::text::upper_char(p)));
            assert(upper_text(wb.push(r)) =~= upper_text(wb).push(crate::text::upper_char(r)));
        }
    } else {
        assert(b.len() == 0);
    }
}

/// Regions that differ only in the case of ASCII letters and in double
/// quotes are one region to every node.
pub proof fn lemma_same_region_same_answer(
    node: ElementModel,
    inherited: Seq<(Seq<char>, Seq<char>)>,
    q: Query,
    region: Seq<char>,
)
    requires
        clean_region(q.region) == clean_region(region),
    ensures
        find_in(node, inherited, q) == find_in(node, inherited, in_region(q, region)),
    decreases node, 1int, 0int,
{
    let merged = merged_attributes(node.attributes, inherited);
    if !node_matches(merged, q) {
        lemma_same_region_among(node.children, merged, q, region, 0);
    }
}

pub proof fn lemma_same_region_among(
    children: Seq<ElementModel>,
    inherited: Seq<(Seq<char>, Seq<char>)>,
    q: Query,
    region: Seq<char>,
    from: int,
)
    requires
        clean_region(q.region) == clean_region(region),
    ensures
        find_among(children, inherited, q, from) == find_among(
            children,
            inherited,
            in_region(q, region),
            from,
        ),
    decreases children, 0int, children.len() - from,
{
    if 0 <= from < children.len() {
        lemma_same_region_same_answer(children[from], inherited, q, region);
        lemma_same_region_among(children, inherited, q, region, from + 1);
    }
}

/// The keys of two queries that differ in the region alone differ: what is
/// remembered for one region is never taken for another.
pub proof fn law_cache_key_per_region(
    id: Seq<char>,
    protocol: Seq<char>,
    region: Seq<char>,
    other: Seq<char>,
)
    requires
        region != other,
    ensures
        cache_key(id, protocol, region) != cache_key(id, protocol, other),
{
    let head = id + ":"@ + protocol + ":"@;
    let a = cache_key(id, protocol, region);
    let b = cache_key(id, protocol, other);
    if a == b {
        assert(a.subrange(head.len() as int, a.len() as int) =~= region);
        assert(b.subrange(head.len() as int, b.len() as int) =~= other);
    }
}

/// The attributes without those named `name`.
pub fn attributes_without(attrs: &Vec<(String, String)>, name: &str) -> (r: Vec<(String, String)>)
    ensures
        attribute_models(r@) == without_name(attribute_models(attrs@), name@),
{
    let ghost all = attribute_models(attrs@);
    let mut r: Vec<(String, String)> = Vec::new();
    let mut i: usize = 0;
    assert(all.take(0) =~= Seq::<(Seq<char>, Seq<char>)>::empty());
    assert(attribute_models(r@) =~= Seq::<(Seq<char>, Seq<char>)>::empty());
    while i < attrs.len()
        invariant
            i <= attrs.len(),
            all == attribute_models(attrs@),
            attribute_models(r@) == without_name(all.take(i as int), name@),
        decreases attrs.len() - i,
    {
        proof {
            assert(all.take(i + 1).drop_last() =~= all.take(i as int));
            assert(all.take(i + 1).last() == (attrs@[i as int].0@, attrs@[i as int].1@));
        }
        if !same_text(attrs[i].0.as_str(), name) {
            let k = attrs[i].0.clone();
            let v = attrs[i].1.clone();
            let ghost before = attribute_models(r@);
            r.push((k, v));
            assert(attribute_models(r@) =~= before.push((k@, v@)));
        }
        i += 1;
    }
    assert(all.take(i as int) =~= all);
    r
}

/// The region as it is compared; see [`clean_region`].
pub fn cleaned_region(region: &str) -> (r: Vec<char>)
    ensures
        r@ == clean_region(region@),
{
    let chars = chars_of(region);
    let plain = chars_without(&chars, '"');
    upper_chars(&plain)
}

/// The inner model of an optional text reference.
pub open spec fn ref_model(r: Option<&String>) -> Option<Seq<char>> {
    match r {
        Some(s) => Some(s@),
        None => None,
    }
}

/// Answers to queries, each remembered under its key.
pub struct Cache {
    pub results: Vec<(String, Option<XmlElement>)>,
}

impl View for Cache {
    type V = Seq<(Seq<char>, Option<ElementModel>)>;

    open spec fn view(&self) -> Seq<(Seq<char>, Option<ElementModel>)> {
        cache_models(self.results@)
    }
}

impl Cache {
    /// A cache that remembers nothing.
    pub fn new() -> (c: Cache)
        ensures
            c@ == Seq::<(Seq<char>, Option<ElementModel>)>::empty(),
    {
        let c = Cache { results: Vec::new() };
        assert(c@ =~= Seq::<(Seq<char>, Option<ElementModel>)>::empty());
        c
    }

    /// What is remembered under `key`, as a copy; see [`cached`].
    pub fn get(&self, key: &str) -> (r: Option<Option<XmlElement>>)
        ensures
            match r {
                Some(hit) => cached(self@, key@) == Some(option_model(hit)),
                None => cached(self@, key@) is None,
            },
    {
        let mut i: usize = self.results.len();
        while i > 0
            invariant
                i <= self.results.len(),
                cached(self@, key@) == cached_upto(self@, key@, i as int),
            decreases i,
        {
            i -= 1;
            if same_text(self.results[i].0.as_str(), key) {
                let hit = match &self.results[i].1 {
                    Some(e) => Some(e.duplicate()),
                    None => None,
                };
                return Some(hit);
            }
        }
        None
    }

    /// Remembers `value` under `key`, in place of what was remembered under
    /// it before.
    pub fn insert(&mut self, key: String, value: Option<XmlElement>)
        ensures
            final(self)@ == old(self)@.push((key@, option_model(value))),
    {
        self.results.push((key, value));
        assert(self@ =~= old(self)@.push((key@, option_model(value))));
    }

    /// Forgets everything.
    pub fn clear(&mut self)
        ensures
            final(self)@ == Seq::<(Seq<char>, Option<ElementModel>)>::empty(),
    {
        self.results.clear();
        assert(self@ =~= Seq::<(Seq<char>, Option<ElementModel>)>::empty());
    }
}

/// A loaded schema: its root node.
pub struct XmlConfig {
    pub root: XmlElement,
}

/// The repository of one protocol: its schema tree once loaded, the answers
/// it remembers, the path of the file the tree came from, and the number of
/// walks through the tree made so far.
pub struct QframeConfig {
    pub config: Option<XmlConfig>,
    pub config_cache: Cache,
    pub config_path: Option<String>,
    pub walks: u64,
}

impl View for QframeConfig {
    type V = RepositoryModel;

    open spec fn view(&self) -> RepositoryModel {
        RepositoryModel {
            tree: match self.config {
                Some(c) => Some(c.root@),
                None => None,
            },
            cache: self.config_cache@,
            walks: self.walks as nat,
            path: text_model(self.config_path),
        }
    }
}

impl QframeConfig {
    /// A repository without a tree, which remembers nothing.
    pub fn new() -> (c: QframeConfig)
        ensures
            c@ == (RepositoryModel { tree: None, cache: Seq::empty(), walks: 0, path: None }),
            c.config_path is None,
    {
        QframeConfig { config: None, config_cache: Cache::new(), config_path: None, walks: 0 }
    }

    /// A repository of the given tree, which remembers nothing yet.
    pub fn with_root(root: XmlElement, path: Option<String>) -> (c: QframeConfig)
        ensures
            c@ == (RepositoryModel {
                tree: Some(root@),
                cache: Seq::empty(),
                walks: 0,
                path: text_model(path),
            }),
            c.config_path == path,
    {
        QframeConfig {
            config: Some(XmlConfig { root }),
            config_cache: Cache::new(),
            config_path: path,
            walks: 0,
        }
    }

    /// The attributes that hold at a node; see [`merged_attributes`].
    pub fn merge_attributes(element: &XmlElement, inherited_attributes: &Vec<(String, String)>) -> (merged:
        Vec<(String, String)>)
        ensures
            attribute_models(merged@) == merged_attributes(
                element@.attributes,
                attribute_models(inherited_attributes@),
            ),
    {
        let mut merged = attributes_without(inherited_attributes, "id");
        let ghost head = attribute_models(merged@);
        let ghost own = attribute_models(element.attributes@);
        let mut i: usize = 0;
        assert(attribute_models(merged@) =~= head + own.take(0));
        while i < element.attributes.len()
            invariant
                i <= element.attributes.len(),
                own == attribute_models(element.attributes@),
                attribute_models(merged@) == head + own.take(i as int),
            decreases element.attributes.len() - i,
        {
            let k = element.attributes[i].0.clone();
            let v = element.attributes[i].1.clone();
            let ghost before = attribute_models(merged@);
            merged.push((k, v));
            assert(attribute_models(merged@) =~= before.push((k@, v@)));
            assert(before.push((k@, v@)) =~= head + own.take(i + 1));
            i += 1;
        }
        assert(own.take(i as int) =~= own);
        merged
    }

    /// The key under which the answer to a query is remembered.
    pub fn generate_cache_key(target_id: &str, protocol: &str, region: &str) -> (key: String)
        ensures
            key@ == cache_key(target_id@, protocol@, region@),
    {
        let mut key = String::from_str(target_id);
        key.append(":");
        key.append(protocol);
        key.append(":");
        key.append(region);
        key
    }

    /// The region as it is compared, as a string.
    pub fn clean_target_region(target_region: &str) -> (cleaned: String)
        ensures
            cleaned@ == clean_region(target_region@),
    {
        let chars = cleaned_region(target_region);
        crate::text::string_of(&chars)
    }

    /// The direction that a `dir` attribute names; see [`dir_value`].
    pub fn dir_of(text: &str) -> (d: u8)
        ensures
            d == dir_value(text@),
    {
        let chars = chars_of(text);
        match parse_decimal(&chars) {
            Some(v) => {
                if v <= 255 {
                    v as u8
                } else {
                    0
                }
            },
            None => 0,
        }
    }

    /// Whether the attributes belong to the protocol and the region asked
    /// for and admit the direction; see [`valid_item`].
    pub fn is_valid_data_item_with_attributes(
        attributes: &Vec<(String, String)>,
        target_protocol: &str,
        target_region: &str,
        dir: Option<u8>,
    ) -> (valid: bool)
        ensures
            valid == valid_item(attribute_models(attributes@), target_protocol@, target_region@, dir),
    {
        let protocols = match find_attribute(attributes, "protocol") {
            Some(p) => p,
            None => {
                return false;
            },
        };
        let wanted = upper_chars(&chars_of(target_protocol));
        if !list_contains(&chars_of(protocols.as_str()), &wanted) {
            return false;
        }
        let regions = match find_attribute(attributes, "region") {
            Some(r) => r,
            None => {
                return false;
            },
        };
        let region = cleaned_region(target_region);
        if !list_contains(&chars_of(regions.as_str()), &region) {
            return false;
        }
        match dir {
            None => true,
            Some(d) => match find_attribute(attributes, "dir") {
                None => true,
                Some(text) => Self::dir_of(text.as_str()) == d,
            },
        }
    }

    /// Whether a node with these merged attributes answers the query.
    pub fn node_answers(
        attributes: &Vec<(String, String)>,
        target_id: &str,
        target_protocol: &str,
        region: &str,
        dir: Option<u8>,
    ) -> (r: bool)
        ensures
            r == node_matches(
                attribute_models(attributes@),
                Query { id: target_id@, protocol: target_protocol@, region: region@, dir },
            ),
    {
        match find_attribute(attributes, "id") {
            None => false,
            Some(id) => {
                let a = chars_of(id.as_str());
                let b = chars_of(target_id);
                same_chars_ignoring_case(&a, &b) && Self::is_valid_data_item_with_attributes(
                    attributes,
                    target_protocol,
                    region,
                    dir,
                )
            },
        }
    }

    /// A copy of the first node, in document order, that answers the query
    /// in the subtree of `element`; see [`find_in`].
    pub fn find_recursive(
        element: &XmlElement,
        inherited_attributes: &Vec<(String, String)>,
        target_id: &str,
        target_protocol: &str,
        region: &str,
        dir: Option<u8>,
    ) -> (r: Option<XmlElement>)
        ensures
            option_model(r) == find_in(
                element@,
                attribute_models(inherited_attributes@),
                Query { id: target_id@, protocol: target_protocol@, region: region@, dir },
            ),
        decreases element,
    {
        let ghost q = Query { id: target_id@, protocol: target_protocol@, region: region@, dir };
        let merged = Self::merge_attributes(element, inherited_attributes);
        if Self::node_answers(&merged, target_id, target_protocol, region, dir) {
            return Some(element.duplicate());
        }
        proof {
            lemma_children(*element);
        }
        let ghost kids = element@.children;
        let ghost handed = attribute_models(merged@);
        let mut i: usize = 0;
        while i < element.children.len()
            invariant
                i <= element.children.len(),
                kids == element@.children,
                kids.len() == element.children@.len(),
                forall|j: int| 0 <= j < element.children@.len() ==> #[trigger] kids[j]
                    == element.children@[j]@,
                handed == attribute_models(merged@),
                handed == merged_attributes(
                    element@.attributes,
                    attribute_models(inherited_attributes@),
                ),
                !node_matches(handed, q),
                q == (Query { id: target_id@, protocol: target_protocol@, region: region@, dir }),
                find_among(kids, handed, q, 0) == find_among(kids, handed, q, i as int),
            decreases element.children.len() - i,
        {
            match Self::find_recursive(
                &element.children[i],
                &merged,
                target_id,
                target_protocol,
                region,
                dir,
            ) {
                Some(found) => {
                    return Some(found);
                },
                None => {},
            }
            i += 1;
        }
        None
    }

    /// Whether a query under this region is repeated under the fallback
    /// region when it finds nothing.
    pub fn region_falls_back(region: &str) -> (r: bool)
        ensures
            r == falls_back(Query { id: Seq::empty(), protocol: Seq::empty(), region: region@, dir: None }),
    {
        let a = chars_of(region);
        let b = chars_of("南网");
        !same_chars_ignoring_case(&a, &b)
    }

    /// One lookup in the repository; see [`find_step`]. The answer is a copy
    /// of the node that was found.
    pub fn find_target_dataitem(
        &mut self,
        target_id: &str,
        target_protocol: &str,
        region: &str,
        dir: Option<u8>,
    ) -> (r: Option<XmlElement>)
        ensures
            option_model(r) == find_step(
                old(self)@,
                Query { id: target_id@, protocol: target_protocol@, region: region@, dir },
            ).0,
            final(self)@ == find_step(
                old(self)@,
                Query { id: target_id@, protocol: target_protocol@, region: region@, dir },
            ).1,
            final(self).config_path == old(self).config_path,
    {
        let cache_key = Self::generate_cache_key(target_id, target_protocol, region);
        let mut result: Option<XmlElement> = None;
        let mut passes: u64 = 0;
        match &self.config {
            None => {
                return None;
            },
            Some(config) => {
                match self.config_cache.get(cache_key.as_str()) {
                    Some(hit) => {
                        return hit;
                    },
                    None => {},
                }
                let root = &config.root;
                result =
                Self::find_recursive(
                    root,
                    &root.attributes,
                    target_id,
                    target_protocol,
                    region,
                    dir,
                );
                passes = 1;
                if result.is_none() && Self::region_falls_back(region) {
                    result =
                    Self::find_recursive(root, &root.attributes, target_id, target_protocol, "南网", dir);
                    passes = 2;
                }
            },
        }
        let remembered = match &result {
            Some(e) => Some(e.duplicate()),
            None => None,
        };
        self.config_cache.insert(cache_key, remembered);
        self.walks = if self.walks > u64::MAX - passes {
            u64::MAX
        } else {
            self.walks + passes
        };
        result
    }

    /// The item with the identifier `item_id` for a protocol, a region and,
    /// where one is given, a direction; see [`find_step`].
    pub fn get_item(&mut self, item_id: &str, protocol: &str, region: &str, dir: Option<u8>) -> (r:
        Option<XmlElement>)
        ensures
            option_model(r) == find_step(
                old(self)@,
                Query { id: item_id@, protocol: protocol@, region: region@, dir },
            ).0,
            final(self)@ == find_step(
                old(self)@,
                Query { id: item_id@, protocol: protocol@, region: region@, dir },
            ).1,
            final(self).config_path == old(self).config_path,
    {
        self.find_target_dataitem(item_id, protocol, region, dir)
    }

    /// The template with the identifier `template`; templates are looked up
    /// as items are.
    pub fn get_template_item(&mut self, template: &str, protocol: &str, region: &str, dir: Option<u8>) -> (r:
        Option<XmlElement>)
        ensures
            option_model(r) == find_step(
                old(self)@,
                Query { id: template@, protocol: protocol@, region: region@, dir },
            ).0,
            final(self)@ == find_step(
                old(self)@,
                Query { id: template@, protocol: protocol@, region: region@, dir },
            ).1,
            final(self).config_path == old(self).config_path,
    {
        self.find_target_dataitem(template, protocol, region, dir)
    }

    /// The loaded schema, if there is one.
    pub fn get_config(&self) -> (c: &Option<XmlConfig>)
        ensures
            *c == self.config,
    {
        &self.config
    }
}

} // verus!
