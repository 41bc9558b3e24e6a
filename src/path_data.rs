//! What an upload carries: the file's place under the root, its owner and
//! tags, and its content; and the text fields of the upload request.
use vstd::prelude::*;
use crate::text::{lower_of, string_of, upper_of, uppercase};

verus! {

#[derive(Debug)]
pub struct PathData {
    pub absolute_path: String,
    pub relative_path: String,
    pub filename: String,
    pub username: String,
    pub tags: Vec<String>,
    pub mime_type: String,
    pub file_buffer: Vec<u8>,
}

/// Splitting state after reading `s`: the segments completed so far, and the
/// segment being read. A `/` ends a segment; empty segments are dropped.
pub open spec fn split_state(s: Seq<char>) -> (Seq<Seq<char>>, Seq<char>)
    decreases s.len(),
{
    if s.len() == 0 {
        (Seq::empty(), Seq::empty())
    } else {
        let (done, cur) = split_state(s.drop_last());
        if s.last() == '/' {
            if cur.len() > 0 {
                (done.push(cur), Seq::empty())
            } else {
                (done, cur)
            }
        } else {
            (done, cur.push(s.last()))
        }
    }
}

/// The non-empty `/`-separated segments of a path, in order.
pub open spec fn segments(s: Seq<char>) -> Seq<Seq<char>> {
    let (done, cur) = split_state(s);
    if cur.len() > 0 {
        done.push(cur)
    } else {
        done
    }
}

/// The owner that files go to when the first segment names no accepted user.
pub open spec fn default_owner() -> Seq<char> {
    "Default_Uploader"@
}

/// The owner of a file with these segments below the root: the first segment
/// when it is a directory (not the file itself) and an accepted user, else the
/// default owner.
pub open spec fn owner_of(segs: Seq<Seq<char>>, users: Seq<Seq<char>>) -> Seq<char> {
    if segs.len() >= 2 && users.contains(segs[0]) {
        segs[0]
    } else {
        default_owner()
    }
}

/// Each string lower-cased.
pub open spec fn lower_all(v: Seq<Seq<char>>) -> Seq<Seq<char>> {
    v.map_values(|t: Seq<char>| lower_of(t))
}

/// The tags of a file with these segments below the root: the directories
/// between the first segment and the file name, lower-cased. The first segment
/// is never a tag, whether or not it became the owner.
pub open spec fn tags_of(segs: Seq<Seq<char>>) -> Seq<Seq<char>> {
    if segs.len() >= 2 {
        lower_all(segs.subrange(1, segs.len() - 1))
    } else {
        Seq::empty()
    }
}

/// The views of a sequence of character vectors.
pub open spec fn chars_view(v: Seq<Vec<char>>) -> Seq<Seq<char>> {
    v.map_values(|c: Vec<char>| c@)
}

/// Splits a path into its non-empty `/`-separated segments.
pub fn split_segments(s: &Vec<char>) -> (r: Vec<Vec<char>>)
    ensures
        chars_view(r@) == segments(s@),
{
    let mut done: Vec<Vec<char>> = Vec::new();
    let mut cur: Vec<char> = Vec::new();
    let mut i: usize = 0;
    assert(s@.subrange(0, 0) =~= Seq::<char>::empty());
    while i < s.len()
        invariant
            i <= s@.len(),
            (chars_view(done@), cur@) == split_state(s@.subrange(0, i as int)),
        decreases s@.len() - i,
    {
        assert(s@.subrange(0, i + 1).drop_last() =~= s@.subrange(0, i as int));
        let c = s[i];
        if c == '/' {
            if cur.len() > 0 {
                let ghost cur_view = cur@;
                let finished = cur;
                done.push(finished);
                cur = Vec::new();
                assert(chars_view(done@) =~= split_state(s@.subrange(0, i as int)).0.push(
                    cur_view,
                ));
            }
        } else {
            cur.push(c);
        }
        i = i + 1;
    }
    assert(s@.subrange(0, s@.len() as int) =~= s@);
    if cur.len() > 0 {
        let ghost cur_view = cur@;
        let ghost done_view = chars_view(done@);
        done.push(cur);
        assert(chars_view(done@) =~= done_view.push(cur_view));
    }
    done
}

/// The `,`-joined text of a sequence of strings.
pub open spec fn joined(v: Seq<Seq<char>>) -> Seq<char>
    decreases v.len(),
{
    if v.len() == 0 {
        Seq::empty()
    } else if v.len() == 1 {
        v[0]
    } else {
        joined(v.drop_last()) + seq![','] + v.last()
    }
}

/// The name under which the secret of an owner is kept.
pub open spec fn credential_key_of(owner: Seq<char>) -> Seq<char> {
    upper_of(owner) + "_PASSWORD"@
}

/// The name of an owner's secret: the owner upper-cased, then `_PASSWORD`.
pub fn credential_key_for(owner: &str) -> (r: String)
    ensures
        r@ == credential_key_of(owner@),
{
    let mut key = uppercase(owner);
    key.append("_PASSWORD");
    key
}

impl PathData {
    /// The upload's description: the tags joined by commas.
    pub fn description(&self) -> (r: String)
        ensures
            r@ == joined(self.tags@.map_values(|t: String| t@)),
    {
        let ghost views = self.tags@.map_values(|t: String| t@);
        let mut out: Vec<char> = Vec::new();
        let mut i: usize = 0;
        while i < self.tags.len()
            invariant
                i <= self.tags@.len(),
                views == self.tags@.map_values(|t: String| t@),
                out@ == joined(views.subrange(0, i as int)),
            decreases self.tags@.len() - i,
        {
            let ghost prefix = views.subrange(0, i as int);
            assert(views.subrange(0, i + 1).drop_last() =~= prefix);
            if i > 0 {
                out.push(',');
            }
            let t = crate::text::chars_of(self.tags[i].as_str());
            let mut k: usize = 0;
            let ghost start = out@;
            while k < t.len()
                invariant
                    k <= t@.len(),
                    out@ == start + t@.subrange(0, k as int),
                decreases t@.len() - k,
            {
                out.push(t[k]);
                assert(out@ =~= start + t@.subrange(0, k + 1));
                k = k + 1;
            }
            assert(t@.subrange(0, t@.len() as int) =~= t@);
            proof {
                if i == 0 {
                    assert(out@ =~= joined(views.subrange(0, 1)));
                } else {
                    assert(out@ =~= joined(views.subrange(0, i + 1)));
                }
            }
            i = i + 1;
        }
        assert(views.subrange(0, self.tags@.len() as int) =~= views);
        string_of(&out)
    }

    /// The name of the owner's secret: the owner upper-cased, then `_PASSWORD`.
    pub fn credential_key(&self) -> (r: String)
        ensures
            r@ == credential_key_of(self.username@),
    {
        credential_key_for(self.username.as_str())
    }
}

} // verus!
