//! The model of a matched element that the action engine works on: the tag
//! name, the attribute list in document order, and the pending replacement
//! for the element's inner content, if an action set one. The embedding
//! program fills one in from the structural matcher's view of the element and
//! applies the changes back after the actions ran.

use vstd::prelude::*;

verus! {

/// A matched element as the actions see it.
pub struct Element {
    /// The tag name, lower case, as the matcher reports it.
    pub tag: String,
    /// The attributes, name/value pairs in document order.
    pub attrs: Vec<(String, String)>,
    /// The pending replacement for the element's inner content (markup), if
    /// an action set one; the last action to set it wins.
    pub inner: Option<String>,
}

/// Whether the attribute list holds an attribute of the given name.
pub open spec fn has_attr(attrs: Seq<(String, String)>, name: Seq<char>) -> bool {
    exists|k: int| 0 <= k < attrs.len() && attrs[k].0@ == name
}

/// The position of the first attribute of the given name.
pub open spec fn attr_idx(attrs: Seq<(String, String)>, name: Seq<char>) -> int
    decreases attrs.len(),
{
    if attrs.len() == 0 {
        0
    } else if attrs[0].0@ == name {
        0
    } else {
        1 + attr_idx(attrs.drop_first(), name)
    }
}

/// The value of the first attribute of the given name, if there is one.
pub open spec fn attr_value(attrs: Seq<(String, String)>, name: Seq<char>) -> Option<Seq<char>> {
    if has_attr(attrs, name) {
        Some(attrs[attr_idx(attrs, name)].1@)
    } else {
        None
    }
}

/// `attr_idx` points at the first attribute of the given name.
pub proof fn lemma_attr_idx(attrs: Seq<(String, String)>, name: Seq<char>)
    requires
        has_attr(attrs, name),
    ensures
        0 <= attr_idx(attrs, name) < attrs.len(),
        attrs[attr_idx(attrs, name)].0@ == name,
        forall|j: int| 0 <= j < attr_idx(attrs, name) ==> attrs[j].0@ != name,
    decreases attrs.len(),
{
    if attrs.len() == 0 {
    } else if attrs[0].0@ == name {
    } else {
        let k = choose|k: int| 0 <= k < attrs.len() && attrs[k].0@ == name;
        assert(attrs.drop_first()[k - 1].0@ == name);
        lemma_attr_idx(attrs.drop_first(), name);
        assert forall|j: int| 0 <= j < attr_idx(attrs, name) implies attrs[j].0@ != name by {
            if j > 0 {
                assert(attrs.drop_first()[j - 1] == attrs[j]);
            }
        }
    }
}

/// The value a rewrite action reads: the first occurrence's value, or the
/// empty string when the attribute is absent.
pub open spec fn read_attr(attrs: Seq<(String, String)>, name: Seq<char>) -> Seq<char> {
    match attr_value(attrs, name) {
        Some(v) => v,
        None => Seq::empty(),
    }
}

/// How a written attribute list relates to the one before: the first
/// occurrence of the named attribute carries the new value, everything else
/// is untouched; an absent attribute is appended.
pub open spec fn attr_set(
    attrs: Seq<(String, String)>,
    name: Seq<char>,
    value: Seq<char>,
    new_attrs: Seq<(String, String)>,
) -> bool {
    if has_attr(attrs, name) {
        let k = attr_idx(attrs, name);
        &&& new_attrs.len() == attrs.len()
        &&& new_attrs[k].0@ == name
        &&& new_attrs[k].1@ == value
        &&& forall|j: int| 0 <= j < attrs.len() && j != k ==> new_attrs[j] == attrs[j]
    } else {
        &&& new_attrs.len() == attrs.len() + 1
        &&& new_attrs.drop_last() == attrs
        &&& new_attrs.last().0@ == name
        &&& new_attrs.last().1@ == value
    }
}

/// A written attribute list keeps the position of the first occurrence, so a
/// later read of the same name sees the written value.
pub proof fn lemma_attr_set_reads_back(
    attrs: Seq<(String, String)>,
    name: Seq<char>,
    value: Seq<char>,
    new_attrs: Seq<(String, String)>,
)
    requires
        attr_set(attrs, name, value, new_attrs),
    ensures
        attr_value(new_attrs, name) == Some(value),
{
    if has_attr(attrs, name) {
        lemma_attr_idx(attrs, name);
        let k = attr_idx(attrs, name);
        assert(has_attr(new_attrs, name));
        lemma_attr_idx(new_attrs, name);
        let k2 = attr_idx(new_attrs, name);
        if k2 < k {
            assert(new_attrs[k2] == attrs[k2]);
        }
        assert(k2 == k);
    } else {
        let k = new_attrs.len() - 1;
        assert(new_attrs[k].0@ == name);
        assert(has_attr(new_attrs, name));
        lemma_attr_idx(new_attrs, name);
        let k2 = attr_idx(new_attrs, name);
        assert forall|j: int| 0 <= j < new_attrs.len() - 1 implies new_attrs[j].0@ != name by {
            assert(new_attrs[j] == new_attrs.drop_last()[j]);
            if new_attrs[j].0@ == name {
                assert(has_attr(attrs, name));
            }
        }
        assert(k2 == k);
    }
}

impl Element {
    /// A fresh element with the given tag and no attributes.
    pub fn new(tag: &str) -> (r: Element)
        ensures
            r.tag@ == tag@,
            r.attrs@ == Seq::<(String, String)>::empty(),
            r.inner is None,
    {
        Element { tag: tag.to_owned(), attrs: Vec::new(), inner: None }
    }

    /// Append an attribute; the embedding program calls this once per
    /// attribute, in document order.
    pub fn push_attr(&mut self, name: &str, value: &str)
        ensures
            final(self).tag == old(self).tag,
            final(self).inner == old(self).inner,
            final(self).attrs@.len() == old(self).attrs@.len() + 1,
            final(self).attrs@.drop_last() == old(self).attrs@,
            final(self).attrs@.last().0@ == name@,
            final(self).attrs@.last().1@ == value@,
    {
        self.attrs.push((name.to_owned(), value.to_owned()));
        proof {
            assert(self.attrs@.drop_last() =~= old(self).attrs@);
        }
    }

    /// The position of the first attribute of the given name, if present.
    pub fn find_attr(&self, name: &str) -> (r: Option<usize>)
        ensures
            match r {
                Some(k) => has_attr(self.attrs@, name@) && k == attr_idx(self.attrs@, name@),
                None => !has_attr(self.attrs@, name@),
            },
    {
        let name_s: String = name.to_owned();
        let n = self.attrs.len();
        let mut i: usize = 0;
        while i < n
            invariant
                name_s@ == name@,
                n == self.attrs@.len(),
                i <= n,
                forall|j: int| 0 <= j < i ==> self.attrs@[j].0@ != name@,
            decreases n - i,
        {
            let pair = &self.attrs[i];
            if pair.0 == name_s {
                proof {
                    assert(has_attr(self.attrs@, name@));
                    lemma_attr_idx(self.attrs@, name@);
                    let k = attr_idx(self.attrs@, name@);
                    assert(k <= i);
                    assert(k == i);
                }
                return Some(i);
            }
            i += 1;
        }
        proof {
            if has_attr(self.attrs@, name@) {
                let k = choose|k: int| 0 <= k < self.attrs@.len() && self.attrs@[k].0@ == name@;
                assert(self.attrs@[k].0@ != name@);
            }
        }
        None
    }

    /// The value of the named attribute, reading the first occurrence.
    pub fn get_attribute(&self, name: &str) -> (r: Option<String>)
        ensures
            match r {
                Some(v) => attr_value(self.attrs@, name@) == Some(v@),
                None => attr_value(self.attrs@, name@) is None,
            },
    {
        match self.find_attr(name) {
            Some(k) => {
                proof {
                    lemma_attr_idx(self.attrs@, name@);
                }
                Some(self.attrs[k].1.clone())
            },
            None => None,
        }
    }

    /// Set the named attribute: the first occurrence's value is overwritten,
    /// an absent attribute is appended.
    pub fn set_attribute(&mut self, name: &str, value: &str)
        ensures
            final(self).tag == old(self).tag,
            final(self).inner == old(self).inner,
            attr_set(old(self).attrs@, name@, value@, final(self).attrs@),
    {
        match self.find_attr(name) {
            Some(k) => {
                proof {
                    lemma_attr_idx(self.attrs@, name@);
                }
                let pair = self.attrs.remove(k);
                self.attrs.insert(k, (pair.0, value.to_owned()));
                proof {
                    let a = old(self).attrs@;
                    let b = self.attrs@;
                    assert(b.len() == a.len());
                    assert forall|j: int| 0 <= j < a.len() && j != k implies b[j] == a[j] by {
                        if j < k {
                            assert(a.remove(k as int)[j] == a[j]);
                            assert(b[j] == a.remove(k as int)[j]);
                        } else {
                            assert(a.remove(k as int)[j - 1] == a[j]);
                            assert(b[j] == a.remove(k as int)[j - 1]);
                        }
                    }
                }
            },
            None => {
                self.attrs.push((name.to_owned(), value.to_owned()));
                proof {
                    assert(self.attrs@.drop_last() =~= old(self).attrs@);
                }
            },
        }
    }

    /// Replace the element's pending inner content with `content`, taken as
    /// markup; a later replacement overrides an earlier one.
    pub fn set_inner_content(&mut self, content: &str)
        ensures
            final(self).tag == old(self).tag,
            final(self).attrs == old(self).attrs,
            final(self).inner matches Some(s) && s@ == content@,
    {
        self.inner = Some(content.to_owned());
    }
}

} // verus!
