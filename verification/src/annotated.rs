//! The annotated field: one decoded element of a frame with its label, its
//! bytes as text, its meaning and the byte range it covers.

use crate::frame_fun::FrameFun;
use crate::text::same_text;
use vstd::prelude::*;

verus! {

/// One element of a decoded frame. `start..end` is the range of the bytes it
/// covers in the buffer that was decoded, `end` excluded. A leaf has no
/// children.
pub struct AnnotatedField {
    pub label: String,
    pub raw_hex: String,
    pub description: String,
    pub start: usize,
    pub end: usize,
    pub children: Vec<AnnotatedField>,
    pub highlight: Option<String>,
}

/// What an [`AnnotatedField`] says, as mathematical values.
pub struct FieldModel {
    pub label: Seq<char>,
    pub raw_hex: Seq<char>,
    pub description: Seq<char>,
    pub start: int,
    pub end: int,
    pub children: Seq<FieldModel>,
    pub highlight: Option<Seq<char>>,
}

/// The models of the first `n` fields of a vector.
pub open spec fn models_of(v: Vec<AnnotatedField>, n: int) -> Seq<FieldModel>
    decreases v, n,
{
    if n <= 0 || n > v@.len() {
        Seq::empty()
    } else {
        models_of(v, n - 1).push(v@[n - 1]@)
    }
}

impl View for AnnotatedField {
    type V = FieldModel;

    open spec fn view(&self) -> FieldModel
        decreases self, 0int,
    {
        FieldModel {
            label: self.label@,
            raw_hex: self.raw_hex@,
            description: self.description@,
            start: self.start as int,
            end: self.end as int,
            children: models_of(self.children, self.children@.len() as int),
            highlight: match self.highlight {
                Some(c) => Some(c@),
                None => None,
            },
        }
    }
}

/// The models of a sequence of fields.
pub open spec fn models(fields: Seq<AnnotatedField>) -> Seq<FieldModel> {
    Seq::new(fields.len(), |i: int| fields[i]@)
}

/// A field without a highlight.
pub open spec fn field(
    label: Seq<char>,
    raw_hex: Seq<char>,
    description: Seq<char>,
    start: int,
    end: int,
    children: Seq<FieldModel>,
) -> FieldModel {
    FieldModel { label, raw_hex, description, start, end, children, highlight: None }
}

/// A field without children and without a highlight.
pub open spec fn leaf(
    label: Seq<char>,
    raw_hex: Seq<char>,
    description: Seq<char>,
    start: int,
    end: int,
) -> FieldModel {
    field(label, raw_hex, description, start, end, Seq::empty())
}

/// The fields of `fields` labelled `target`, each followed by those of its
/// children that are labelled so, up to entry `n`.
pub open spec fn labelled(fields: Seq<FieldModel>, target: Seq<char>, n: int) -> Seq<FieldModel>
    decreases n,
{
    if n <= 0 || n > fields.len() {
        Seq::empty()
    } else {
        let entry = fields[n - 1];
        let own = if entry.label == target {
            seq![entry]
        } else {
            Seq::empty()
        };
        labelled(fields, target, n - 1) + own + labelled_top(
            entry.children,
            target,
            entry.children.len() as int,
        )
    }
}

/// The fields among the first `n` of `fields` that are labelled `target`.
pub open spec fn labelled_top(fields: Seq<FieldModel>, target: Seq<char>, n: int) -> Seq<
    FieldModel,
>
    decreases n,
{
    if n <= 0 || n > fields.len() {
        Seq::empty()
    } else if fields[n - 1].label == target {
        labelled_top(fields, target, n - 1).push(fields[n - 1])
    } else {
        labelled_top(fields, target, n - 1)
    }
}

pub proof fn lemma_models_push(fields: Seq<AnnotatedField>, x: AnnotatedField)
    ensures
        models(fields.push(x)) == models(fields).push(x@),
{
    assert(models(fields.push(x)) =~= models(fields).push(x@));
}

pub proof fn lemma_models_empty()
    ensures
        models(Seq::<AnnotatedField>::empty()) == Seq::<FieldModel>::empty(),
{
    assert(models(Seq::<AnnotatedField>::empty()) =~= Seq::<FieldModel>::empty());
}

pub proof fn lemma_models_of(v: Vec<AnnotatedField>, n: int)
    requires
        0 <= n <= v@.len(),
    ensures
        models_of(v, n) == models(v@.take(n)),
    decreases n,
{
    let a = models_of(v, n);
    let b = models(v@.take(n));
    if n > 0 {
        lemma_models_of(v, n - 1);
        assert(a == models_of(v, n - 1).push(v@[n - 1]@));
        assert forall|i: int| 0 <= i < n implies a[i] == b[i] by {
            if i < n - 1 {
                assert(models(v@.take(n - 1))[i] == v@.take(n - 1)[i]@);
                assert(a[i] == v@[i]@);
            } else {
                assert(a[i] == v@[n - 1]@);
            }
            assert(b[i] == v@.take(n)[i]@);
        }
    }
    assert(a =~= b);
}

/// The children of a field's model are the models of its children.
pub proof fn lemma_children_models(f: AnnotatedField)
    ensures
        f@.children == models(f.children@),
{
    lemma_models_of(f.children, f.children@.len() as int);
    assert(f.children@.take(f.children@.len() as int) =~= f.children@);
}

impl AnnotatedField {
    /// A field with the given parts.
    pub fn new(
        label: String,
        raw_hex: String,
        description: String,
        start: usize,
        end: usize,
        children: Vec<AnnotatedField>,
        highlight: Option<String>,
    ) -> (f: AnnotatedField)
        ensures
            f@ == (FieldModel {
                label: label@,
                raw_hex: raw_hex@,
                description: description@,
                start: start as int,
                end: end as int,
                children: models(children@),
                highlight: match highlight {
                    Some(c) => Some(c@),
                    None => None,
                },
            }),
    {
        let f = AnnotatedField { label, raw_hex, description, start, end, children, highlight };
        proof {
            lemma_children_models(f);
        }
        f
    }

    /// A copy of the field with all that it holds.
    pub fn duplicate(&self) -> (f: AnnotatedField)
        ensures
            f@ == self@,
        decreases self,
    {
        let mut children: Vec<AnnotatedField> = Vec::new();
        let mut i: usize = 0;
        while i < self.children.len()
            invariant
                i <= self.children.len(),
                children@.len() == i,
                forall|j: int| 0 <= j < i ==> children@[j]@ == self.children@[j]@,
            decreases self.children.len() - i,
        {
            let c = self.children[i].duplicate();
            children.push(c);
            i += 1;
        }
        let highlight = match &self.highlight {
            Some(c) => Some(c.clone()),
            None => None,
        };
        let f = AnnotatedField {
            label: self.label.clone(),
            raw_hex: self.raw_hex.clone(),
            description: self.description.clone(),
            start: self.start,
            end: self.end,
            children,
            highlight,
        };
        proof {
            lemma_children_models(f);
            lemma_children_models(*self);
            assert(models(f.children@) =~= models(self.children@));
        }
        f
    }
}

impl FrameFun {
    /// Appends a field to `data_list`: its label, its bytes as text, its
    /// meaning, the byte range it covers, its children if it has any, and its
    /// highlight if it has one.
    pub fn add_data(
        data_list: &mut Vec<AnnotatedField>,
        frame: String,
        data: String,
        description: String,
        location: (usize, usize),
        child_items: Option<Vec<AnnotatedField>>,
        color: Option<String>,
    )
        ensures
            models(final(data_list)@) == models(old(data_list)@).push(
                FieldModel {
                    label: frame@,
                    raw_hex: data@,
                    description: description@,
                    start: location.0 as int,
                    end: location.1 as int,
                    children: match child_items {
                        Some(items) => models(items@),
                        None => Seq::empty(),
                    },
                    highlight: match color {
                        Some(c) => Some(c@),
                        None => None,
                    },
                },
            ),
    {
        let children = match child_items {
            Some(items) => items,
            None => {
                proof {
                    lemma_models_empty();
                }
                Vec::new()
            },
        };
        let f = AnnotatedField::new(
            frame,
            data,
            description,
            location.0,
            location.1,
            children,
            color,
        );
        proof {
            lemma_models_push(data_list@, f);
        }
        data_list.push(f);
    }

    /// The fields of `data_list` labelled `target_item`, each followed by
    /// those of its children that are labelled so; `None` where there is none.
    pub fn find_frame_in_data_list(data_list: &Vec<AnnotatedField>, target_item: &str) -> (r:
        Option<Vec<AnnotatedField>>)
        ensures
            match r {
                Some(found) => found@.len() > 0 && models(found@) == labelled(
                    models(data_list@),
                    target_item@,
                    data_list@.len() as int,
                ),
                None => labelled(models(data_list@), target_item@, data_list@.len() as int).len()
                    == 0,
            },
    {
        let mut result: Vec<AnnotatedField> = Vec::new();
        let ghost all = models(data_list@);
        let mut i: usize = 0;
        proof {
            lemma_models_empty();
        }
        while i < data_list.len()
            invariant
                i <= data_list.len(),
                all == models(data_list@),
                models(result@) == labelled(all, target_item@, i as int),
            decreases data_list.len() - i,
        {
            let entry = &data_list[i];
            let ghost before = models(result@);
            if same_text(entry.label.as_str(), target_item) {
                let copy = entry.duplicate();
                proof {
                    lemma_models_push(result@, copy);
                }
                result.push(copy);
            }
            let ghost middle = models(result@);
            let ghost kids = entry@.children;
            proof {
                lemma_children_models(*entry);
                assert(middle =~= before + (if entry@.label == target_item@ {
                    seq![entry@]
                } else {
                    Seq::<FieldModel>::empty()
                }));
            }
            let mut j: usize = 0;
            while j < entry.children.len()
                invariant
                    j <= entry.children.len(),
                    kids == models(entry.children@),
                    models(result@) == middle + labelled_top(kids, target_item@, j as int),
                decreases entry.children.len() - j,
            {
                let child = &entry.children[j];
                if same_text(child.label.as_str(), target_item) {
                    let copy = child.duplicate();
                    proof {
                        lemma_models_push(result@, copy);
                        assert(models(result@.push(copy)) =~= middle + labelled_top(
                            kids,
                            target_item@,
                            j + 1,
                        ));
                    }
                    result.push(copy);
                }
                j += 1;
            }
            i += 1;
        }
        if result.len() == 0 {
            None
        } else {
            Some(result)
        }
    }
}

} // verus!
