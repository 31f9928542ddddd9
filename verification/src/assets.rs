//! The icons that the program holds.

use vstd::prelude::*;
use crate::text::{chars_of, starts_with, text_of};

verus! {

/// The icons, each with its path and its bytes.
pub struct Assets {
    pub icons: Vec<(String, Vec<u8>)>,
}

impl DeepView for Assets {
    type V = Seq<(Seq<char>, Seq<u8>)>;

    open spec fn deep_view(&self) -> Seq<(Seq<char>, Seq<u8>)> {
        self.icons.deep_view()
    }
}

/// The path under which an icon is looked up: one slash before it does not count.
pub open spec fn icon_key(path: Seq<char>) -> Seq<char> {
    if path.len() > 0 && path[0] == '/' {
        path.drop_first()
    } else {
        path
    }
}

/// The bytes of the first icon with a path.
pub open spec fn icon_bytes(icons: Seq<(Seq<char>, Seq<u8>)>, key: Seq<char>) -> Option<Seq<u8>>
    decreases icons.len(),
{
    if icons.len() == 0 {
        None
    } else if icons[0].0 == key {
        Some(icons[0].1)
    } else {
        icon_bytes(icons.drop_first(), key)
    }
}

/// The paths of the icons that begin with a text, in order.
pub open spec fn icon_paths(icons: Seq<(Seq<char>, Seq<u8>)>, prefix: Seq<char>) -> Seq<Seq<char>>
    decreases icons.len(),
{
    if icons.len() == 0 {
        Seq::empty()
    } else {
        let front = icon_paths(icons.drop_last(), prefix);
        if prefix.is_prefix_of(icons.last().0) {
            front.push(icons.last().0)
        } else {
            front
        }
    }
}

fn key_of(path: &str) -> (r: String)
    ensures
        r@ == icon_key(path@),
{
    let v = chars_of(path);
    if v.len() > 0 && v[0] == '/' {
        let r = text_of(&v, 1, v.len());
        proof {
            assert(r@ =~= path@.drop_first());
        }
        r
    } else {
        path.to_owned()
    }
}

impl Assets {
    /// The bytes of the icon with a path, if there is one.
    pub fn load(&self, path: &str) -> (r: Option<&Vec<u8>>)
        ensures
            r.deep_view() == icon_bytes(self.deep_view(), icon_key(path@)),
    {
        let key = key_of(path);
        let ghost iv = self.icons.deep_view();
        proof {
            assert(iv.skip(0) =~= iv);
        }
        let mut i: usize = 0;
        while i < self.icons.len()
            invariant
                i <= self.icons@.len(),
                iv == self.icons.deep_view(),
                key@ == icon_key(path@),
                icon_bytes(iv, key@) == icon_bytes(iv.skip(i as int), key@),
            decreases self.icons@.len() - i,
        {
            proof {
                assert(iv.skip(i as int)[0] == self.icons@[i as int].deep_view());
                assert(iv.skip(i as int).drop_first() =~= iv.skip(i + 1));
            }
            if self.icons[i].0 == key {
                return Some(&self.icons[i].1);
            }
            i += 1;
        }
        None
    }

    /// The paths of the icons that begin with a text.
    pub fn list(&self, prefix: &str) -> (r: Vec<String>)
        ensures
            r.deep_view() == icon_paths(self.deep_view(), prefix@),
    {
        let ghost iv = self.icons.deep_view();
        let mut r: Vec<String> = Vec::new();
        proof {
            assert(r.deep_view() =~= icon_paths(iv.take(0), prefix@));
        }
        let mut i: usize = 0;
        while i < self.icons.len()
            invariant
                i <= self.icons@.len(),
                iv == self.icons.deep_view(),
                r.deep_view() == icon_paths(iv.take(i as int), prefix@),
            decreases self.icons@.len() - i,
        {
            let ghost before = r.deep_view();
            proof {
                assert(iv.take(i + 1).drop_last() =~= iv.take(i as int));
                assert(iv.take(i + 1).last() == self.icons@[i as int].deep_view());
            }
            if starts_with(self.icons[i].0.as_str(), prefix) {
                r.push(self.icons[i].0.clone());
                proof {
                    assert(r.deep_view() =~= before.push(self.icons@[i as int].0@));
                }
            }
            i += 1;
        }
        proof {
            assert(iv.take(i as int) =~= iv);
        }
        r
    }
}

} // verus!
