//! Changes to a schema tree, the list of all items it declares, and the
//! manager that holds one repository per protocol.

use crate::schema::{
    attribute_of, child_text, duplicate_text, lemma_children, text_model, ElementModel, XmlElement,
};
use crate::schema_find::{find_step, option_model, QframeConfig, Query, RepositoryModel, XmlConfig};
use crate::text::{
    chars_of, contains_chars, contains_text, same_text, string_of, upper_chars, upper_text,
};
use vstd::prelude::*;

verus! {

/// Whether the node itself carries the identifier `target`, letter for
/// letter; inherited attributes do not count.
pub open spec fn own_id_is(node: ElementModel, target: Seq<char>) -> bool {
    attribute_of(node.attributes, "id"@) == Some(target)
}

/// The subtree of `node` with the first node, in document order, that
/// carries the identifier `target` replaced by `new`, and whether there was
/// such a node.
pub open spec fn replaced(node: ElementModel, target: Seq<char>, new: ElementModel) -> (
    ElementModel,
    bool,
)
    decreases node, 1int, 0int,
{
    if own_id_is(node, target) {
        (new, true)
    } else {
        let below = replaced_among(node.children, target, new, 0);
        (ElementModel { children: below.0, ..node }, below.1)
    }
}

/// The children with the first node that carries the identifier `target` in
/// the subtrees from `from` on replaced by `new`, and whether there was one.
pub open spec fn replaced_among(
    children: Seq<ElementModel>,
    target: Seq<char>,
    new: ElementModel,
    from: int,
) -> (Seq<ElementModel>, bool)
    decreases children, 0int, children.len() - from,
{
    if from < 0 || from >= children.len() {
        (children, false)
    } else {
        let here = replaced(children[from], target, new);
        if here.1 {
            (children.update(from, here.0), true)
        } else {
            replaced_among(children, target, new, from + 1)
        }
    }
}

/// The tree after an update: the first node that carries the identifier is
/// replaced; where there is none, `new` becomes the last child of the root.
pub open spec fn upserted(root: ElementModel, target: Seq<char>, new: ElementModel) -> ElementModel {
    let r = replaced(root, target, new);
    if r.1 {
        r.0
    } else {
        ElementModel { children: root.children.push(new), ..root }
    }
}

/// The number of nodes of a subtree.
pub open spec fn node_count(node: ElementModel) -> nat
    decreases node, 1int, 0int,
{
    1 + count_among(node.children, node.children.len() as int)
}

/// The number of nodes of the subtrees of the first `n` children.
pub open spec fn count_among(children: Seq<ElementModel>, n: int) -> nat
    decreases children, 0int, n,
{
    if n <= 0 || n > children.len() {
        0
    } else {
        count_among(children, n - 1) + node_count(children[n - 1])
    }
}

/// A child has fewer nodes than the children together.
pub proof fn lemma_count_among(children: Seq<ElementModel>, i: int, n: int)
    requires
        0 <= i < n <= children.len(),
    ensures
        node_count(children[i]) <= count_among(children, n),
    decreases n,
{
    if i < n - 1 {
        lemma_count_among(children, i, n - 1);
    }
}

pub proof fn lemma_replaced_among_nothing(
    children: Seq<ElementModel>,
    target: Seq<char>,
    new: ElementModel,
    from: int,
)
    requires
        !replaced_among(children, target, new, from).1,
    ensures
        replaced_among(children, target, new, from).0 == children,
    decreases children, 0int, children.len() - from,
{
    if 0 <= from < children.len() {
        lemma_replaced_among_nothing(children, target, new, from + 1);
    }
}

/// One entry of the list of all items of a schema.
pub struct ItemConfigList {
    pub item: String,
    pub name: Option<String>,
    pub protocol: Option<String>,
    pub region: Option<String>,
    pub dir: Option<String>,
}

/// What an [`ItemConfigList`] holds, as mathematical values.
pub struct ItemModel {
    pub item: Seq<char>,
    pub name: Option<Seq<char>>,
    pub protocol: Option<Seq<char>>,
    pub region: Option<Seq<char>>,
    pub dir: Option<Seq<char>>,
}

impl View for ItemConfigList {
    type V = ItemModel;

    open spec fn view(&self) -> ItemModel {
        ItemModel {
            item: self.item@,
            name: text_model(self.name),
            protocol: text_model(self.protocol),
            region: text_model(self.region),
            dir: text_model(self.dir),
        }
    }
}

/// The models of a list of items.
pub open spec fn item_models(items: Seq<ItemConfigList>) -> Seq<ItemModel> {
    Seq::new(items.len(), |i: int| items[i]@)
}

/// The first of two optional values that is there.
pub open spec fn or_else(own: Option<Seq<char>>, parent: Option<Seq<char>>) -> Option<Seq<char>> {
    match own {
        Some(v) => Some(v),
        None => parent,
    }
}

/// The items that the subtree of `element` declares, in document order. A
/// node below the root that carries no identifier ends the descent. A node
/// takes protocol, region and direction from its own attributes or else from
/// those of its parent.
pub open spec fn items_below(
    element: ElementModel,
    skip_id_check: bool,
    parent_protocol: Option<Seq<char>>,
    parent_region: Option<Seq<char>>,
    parent_dir: Option<Seq<char>>,
) -> Seq<ItemModel>
    decreases element, 1int, 0int,
{
    let id = attribute_of(element.attributes, "id"@);
    if !skip_id_check && id is None {
        Seq::empty()
    } else {
        let own = match id {
            Some(item) => seq![
                ItemModel {
                    item,
                    name: child_text(element, "name"@),
                    protocol: or_else(
                        attribute_of(element.attributes, "protocol"@),
                        parent_protocol,
                    ),
                    region: or_else(attribute_of(element.attributes, "region"@), parent_region),
                    dir: or_else(attribute_of(element.attributes, "dir"@), parent_dir),
                },
            ],
            None => Seq::empty(),
        };
        own + items_among(
            element.children,
            attribute_of(element.attributes, "protocol"@),
            attribute_of(element.attributes, "region"@),
            attribute_of(element.attributes, "dir"@),
            element.children.len() as int,
        )
    }
}

/// The items that the subtrees of the first `n` children declare.
pub open spec fn items_among(
    children: Seq<ElementModel>,
    protocol: Option<Seq<char>>,
    region: Option<Seq<char>>,
    dir: Option<Seq<char>>,
    n: int,
) -> Seq<ItemModel>
    decreases children, 0int, n,
{
    if n <= 0 || n > children.len() {
        Seq::empty()
    } else {
        items_among(children, protocol, region, dir, n - 1) + items_below(
            children[n - 1],
            false,
            protocol,
            region,
            dir,
        )
    }
}

/// A copy of an optional text reference.
pub fn owned_text(text: Option<&String>) -> (copy: Option<String>)
    ensures
        text_model(copy) == (match text {
            Some(t) => Some(t@),
            None => None,
        }),
{
    match text {
        Some(t) => Some(t.clone()),
        None => None,
    }
}

/// The first of two optional texts that is there, as a copy.
pub fn own_or_parent(own: &Option<String>, parent: &Option<String>) -> (r: Option<String>)
    ensures
        text_model(r) == or_else(text_model(*own), text_model(*parent)),
{
    match own {
        Some(v) => Some(v.clone()),
        None => duplicate_text(parent),
    }
}

impl QframeConfig {
    /// Replaces the first node below `current`, itself included, that
    /// carries the identifier `target_id`; see [`replaced`]. At the root,
    /// where there is no such node, `new_element` becomes the last child;
    /// see [`upserted`]. Returns whether the tree was changed.
    pub fn update_element_recursive(
        current: &mut XmlElement,
        target_id: &str,
        new_element: &XmlElement,
        isroot: bool,
    ) -> (done: bool)
        ensures
            !isroot ==> final(current)@ == replaced(old(current)@, target_id@, new_element@).0
                && done == replaced(old(current)@, target_id@, new_element@).1,
            isroot ==> final(current)@ == upserted(old(current)@, target_id@, new_element@)
                && done,
        decreases node_count(old(current)@),
    {
        let ghost before = *current;
        let own = match current.get_attribute("id") {
            Some(id) => same_text(id.as_str(), target_id),
            None => false,
        };
        if own {
            *current = new_element.duplicate();
            return true;
        }
        proof {
            lemma_children(before);
        }
        let ghost kids = before@.children;
        let mut i: usize = 0;
        while i < current.children.len()
            invariant
                i <= current.children.len(),
                *current == before,
                before == *old(current),
                kids == before@.children,
                kids.len() == before.children@.len(),
                forall|j: int| 0 <= j < before.children@.len() ==> #[trigger] kids[j]
                    == before.children@[j]@,
                !own_id_is(before@, target_id@),
                replaced_among(kids, target_id@, new_element@, 0) == replaced_among(
                    kids,
                    target_id@,
                    new_element@,
                    i as int,
                ),
            decreases current.children.len() - i,
        {
            let mut child = current.children[i].duplicate();
            proof {
                lemma_count_among(kids, i as int, kids.len() as int);
            }
            if Self::update_element_recursive(&mut child, target_id, new_element, false) {
                current.children.set(i, child);
                proof {
                    lemma_children(*current);
                    assert(current@.children =~= kids.update(i as int, child@));
                }
                return true;
            }
            i += 1;
        }
        if !isroot {
            proof {
                lemma_replaced_among_nothing(kids, target_id@, new_element@, 0);
            }
            return false;
        }
        let copy = new_element.duplicate();
        current.children.push(copy);
        proof {
            lemma_children(*current);
            assert(current@.children =~= kids.push(new_element@));
        }
        true
    }

    /// Updates the schema: the first node that carries the identifier
    /// `target_id` is replaced by `new_element`; where there is none,
    /// `new_element` becomes the last child of the root. Everything that
    /// was remembered is forgotten. Returns whether a schema is loaded;
    /// without one nothing changes.
    pub fn update_element(&mut self, target_id: &str, new_element: XmlElement) -> (loaded: bool)
        ensures
            loaded == (old(self)@.tree is Some),
            !loaded ==> final(self)@ == old(self)@,
            loaded ==> final(self)@ == (RepositoryModel {
                tree: Some(upserted(old(self)@.tree->0, target_id@, new_element@)),
                cache: Seq::empty(),
                ..old(self)@
            }),
            final(self).config_path == old(self).config_path,
    {
        let mut root = match &self.config {
            Some(c) => c.root.duplicate(),
            None => {
                return false;
            },
        };
        self.config_cache.clear();
        Self::update_element_recursive(&mut root, target_id, &new_element, true);
        self.config = Some(XmlConfig { root });
        true
    }

    /// Appends the items that the subtree of `element` declares; see
    /// [`items_below`].
    pub fn traverse_element(
        element: &XmlElement,
        result: &mut Vec<ItemConfigList>,
        skip_id_check: bool,
        parent_protocol: &Option<String>,
        parent_region: &Option<String>,
        parent_dir: &Option<String>,
    )
        ensures
            item_models(final(result)@) == item_models(old(result)@) + items_below(
                element@,
                skip_id_check,
                text_model(*parent_protocol),
                text_model(*parent_region),
                text_model(*parent_dir),
            ),
        decreases element,
    {
        let ghost start = item_models(result@);
        let id = owned_text(element.get_attribute("id"));
        if !skip_id_check && id.is_none() {
            assert(item_models(result@) =~= start + Seq::<ItemModel>::empty());
            return ;
        }
        let protocol = owned_text(element.get_attribute("protocol"));
        let region = owned_text(element.get_attribute("region"));
        let dir = owned_text(element.get_attribute("dir"));
        match id {
            Some(item) => {
                let entry = ItemConfigList {
                    item,
                    name: element.get_child_text("name"),
                    protocol: own_or_parent(&protocol, parent_protocol),
                    region: own_or_parent(&region, parent_region),
                    dir: own_or_parent(&dir, parent_dir),
                };
                result.push(entry);
                assert(item_models(result@) =~= start.push(entry@));
            },
            None => {},
        }
        let ghost middle = item_models(result@);
        proof {
            lemma_children(*element);
            assert(middle =~= middle + Seq::<ItemModel>::empty());
        }
        let ghost kids = element@.children;
        let mut i: usize = 0;
        while i < element.children.len()
            invariant
                i <= element.children.len(),
                kids == element@.children,
                kids.len() == element.children@.len(),
                forall|j: int| 0 <= j < element.children@.len() ==> #[trigger] kids[j]
                    == element.children@[j]@,
                item_models(result@) == middle + items_among(
                    kids,
                    text_model(protocol),
                    text_model(region),
                    text_model(dir),
                    i as int,
                ),
            decreases element.children.len() - i,
        {
            let ghost before = item_models(result@);
            Self::traverse_element(&element.children[i], result, false, &protocol, &region, &dir);
            proof {
                let step = items_below(
                    kids[i as int],
                    false,
                    text_model(protocol),
                    text_model(region),
                    text_model(dir),
                );
                assert(item_models(result@) == before + step);
                assert(before + step =~= middle + items_among(
                    kids,
                    text_model(protocol),
                    text_model(region),
                    text_model(dir),
                    i + 1,
                ));
            }
            i += 1;
        }
        proof {
            let own = middle.subrange(start.len() as int, middle.len() as int);
            assert(middle =~= start + own);
            assert(item_models(result@) =~= start + (own + items_among(
                kids,
                text_model(protocol),
                text_model(region),
                text_model(dir),
                kids.len() as int,
            )));
        }
    }

    /// Every item that the schema declares, in document order; none where no
    /// schema is loaded.
    pub fn get_all_item(&self) -> (items: Vec<ItemConfigList>)
        ensures
            item_models(items@) == (match self@.tree {
                Some(root) => items_below(root, true, None, None, None),
                None => Seq::empty(),
            }),
    {
        let mut result: Vec<ItemConfigList> = Vec::new();
        assert(item_models(result@) =~= Seq::<ItemModel>::empty());
        match &self.config {
            Some(c) => {
                Self::traverse_element(&c.root, &mut result, true, &None, &None, &None);
                assert(item_models(result@) =~= items_below(c.root@, true, None, None, None));
            },
            None => {},
        }
        result
    }
}

/// The protocols for which a repository is kept.
#[derive(Debug, Clone, Copy, PartialEq, Eq, Structural)]
pub enum ProtocolKind {
    Csg13,
    Dlt645,
    Csg16,
}

/// The protocol that a protocol name stands for: the first of `CSG13`,
/// `DLT/645` and `CSG16` that the name holds once its ASCII letters are in
/// upper case.
pub open spec fn protocol_kind(name: Seq<char>) -> Option<ProtocolKind> {
    let upper = upper_text(name);
    if contains_text(upper, "CSG13"@) {
        Some(ProtocolKind::Csg13)
    } else if contains_text(upper, "DLT/645"@) {
        Some(ProtocolKind::Dlt645)
    } else if contains_text(upper, "CSG16"@) {
        Some(ProtocolKind::Csg16)
    } else {
        None
    }
}

/// The repositories of the protocols, each present once its schema is
/// loaded.
pub struct ProtocolConfigManager {
    pub csg13: Option<QframeConfig>,
    pub dlt645: Option<QframeConfig>,
    pub csg16: Option<QframeConfig>,
}

/// The model of an optional repository.
pub open spec fn repository_model(r: Option<QframeConfig>) -> Option<RepositoryModel> {
    match r {
        Some(c) => Some(c@),
        None => None,
    }
}

/// One lookup in an optional repository: the answer and the repository
/// after it.
pub open spec fn optional_find_step(r: Option<RepositoryModel>, q: Query) -> (
    Option<ElementModel>,
    Option<RepositoryModel>,
) {
    match r {
        Some(s) => (find_step(s, q).0, Some(find_step(s, q).1)),
        None => (None, None),
    }
}

impl ProtocolConfigManager {
    /// A manager without any repository.
    pub fn new() -> (m: ProtocolConfigManager)
        ensures
            m.csg13 is None,
            m.dlt645 is None,
            m.csg16 is None,
    {
        ProtocolConfigManager { csg13: None, dlt645: None, csg16: None }
    }

    /// The protocol that a name stands for; see [`protocol_kind`].
    pub fn kind_of(protocol: &str) -> (r: Option<ProtocolKind>)
        ensures
            r == protocol_kind(protocol@),
    {
        let upper = upper_chars(&chars_of(protocol));
        if contains_chars(&upper, &chars_of("CSG13")) {
            Some(ProtocolKind::Csg13)
        } else if contains_chars(&upper, &chars_of("DLT/645")) {
            Some(ProtocolKind::Dlt645)
        } else if contains_chars(&upper, &chars_of("CSG16")) {
            Some(ProtocolKind::Csg16)
        } else {
            None
        }
    }

    /// One lookup in an optional repository.
    pub fn find_in_repository(
        repository: &mut Option<QframeConfig>,
        id: &str,
        protocol: &str,
        region: &str,
        dir: Option<u8>,
    ) -> (r: Option<XmlElement>)
        ensures
            option_model(r) == optional_find_step(
                repository_model(*old(repository)),
                Query { id: id@, protocol: protocol@, region: region@, dir },
            ).0,
            repository_model(*final(repository)) == optional_find_step(
                repository_model(*old(repository)),
                Query { id: id@, protocol: protocol@, region: region@, dir },
            ).1,
    {
        match repository.take() {
            Some(mut config) => {
                let r = config.get_item(id, protocol, region, dir);
                *repository = Some(config);
                r
            },
            None => None,
        }
    }

    /// The item with the identifier `data_item_id` in the schema of the
    /// protocol that `protocol` names, looked up under the protocol name in
    /// upper case. A name that stands for no protocol, or for one whose
    /// schema is not loaded, finds nothing and changes nothing.
    pub fn get_config_xml(
        &mut self,
        data_item_id: &str,
        protocol: &str,
        region: &str,
        dir: Option<u8>,
    ) -> (r: Option<XmlElement>)
        ensures
            ({
                let q = Query {
                    id: data_item_id@,
                    protocol: upper_text(protocol@),
                    region: region@,
                    dir,
                };
                match protocol_kind(protocol@) {
                    Some(ProtocolKind::Csg13) => {
                        &&& option_model(r) == optional_find_step(
                            repository_model(old(self).csg13),
                            q,
                        ).0
                        &&& repository_model(final(self).csg13) == optional_find_step(
                            repository_model(old(self).csg13),
                            q,
                        ).1
                        &&& final(self).dlt645 == old(self).dlt645
                        &&& final(self).csg16 == old(self).csg16
                    },
                    Some(ProtocolKind::Dlt645) => {
                        &&& option_model(r) == optional_find_step(
                            repository_model(old(self).dlt645),
                            q,
                        ).0
                        &&& repository_model(final(self).dlt645) == optional_find_step(
                            repository_model(old(self).dlt645),
                            q,
                        ).1
                        &&& final(self).csg13 == old(self).csg13
                        &&& final(self).csg16 == old(self).csg16
                    },
                    Some(ProtocolKind::Csg16) => {
                        &&& option_model(r) == optional_find_step(
                            repository_model(old(self).csg16),
                            q,
                        ).0
                        &&& repository_model(final(self).csg16) == optional_find_step(
                            repository_model(old(self).csg16),
                            q,
                        ).1
                        &&& final(self).csg13 == old(self).csg13
                        &&& final(self).dlt645 == old(self).dlt645
                    },
                    None => r is None && *final(self) == *old(self),
                }
            }),
    {
        let upper = string_of(&upper_chars(&chars_of(protocol)));
        match Self::kind_of(protocol) {
            Some(ProtocolKind::Csg13) => Self::find_in_repository(
                &mut self.csg13,
                data_item_id,
                upper.as_str(),
                region,
                dir,
            ),
            Some(ProtocolKind::Dlt645) => Self::find_in_repository(
                &mut self.dlt645,
                data_item_id,
                upper.as_str(),
                region,
                dir,
            ),
            Some(ProtocolKind::Csg16) => Self::find_in_repository(
                &mut self.csg16,
                data_item_id,
                upper.as_str(),
                region,
                dir,
            ),
            None => None,
        }
    }
}

} // verus!
