//! The post entity: a hierarchical name, metadata, and an optional body.
use vstd::prelude::*;

use crate::bytes::{copy_bytes, copy_segs, last_seg, parent_segs};
use crate::codec::{decode, doc_of, encode, encode_spec, Meta, MetaView};
use crate::esa_client::{RemotePayload, RemoteRecord};
use crate::name::{file_path_spec, file_path_vec, is_post_name_valid, join_segs, join_segs_vec, name_ok};

verus! {

/// Everything that can go wrong while handling a post locally.
#[derive(Debug, Clone, Copy, PartialEq, Eq, Structural)]
pub enum Error {
    /// The hierarchical name is malformed.
    NameInvalid,
    /// A file already exists at the derived path.
    PostExists,
    /// No file exists at the derived path.
    PostNotExists,
    /// A write to the derived path failed.
    PostNameWriteFailed,
    /// The document lacks a matching pair of delimiter lines.
    PostFormatInvalid,
    /// The metadata block between the delimiters does not parse.
    MetaTomlInvalid,
}

/// A post: its name as path segments, its body once loaded, and its
/// metadata.
pub struct Post {
    pub fullname: Vec<Vec<u8>>,
    pub(crate) body: Option<Vec<u8>>,
    pub meta: Meta,
}

/// The mathematical value of a `Post`.
pub ghost struct PostView {
    pub fullname: Seq<Seq<u8>>,
    pub body: Option<Seq<u8>>,
    pub meta: MetaView,
}

impl View for Post {
    type V = PostView;

    closed spec fn view(&self) -> PostView {
        PostView {
            fullname: self.fullname.deep_view(),
            body: self.body.deep_view(),
            meta: self.meta@,
        }
    }
}

impl DeepView for Post {
    type V = PostView;

    open spec fn deep_view(&self) -> PostView {
        self.view()
    }
}

/// The body, or the empty string where none has been loaded.
pub open spec fn body_or_empty(b: Option<Seq<u8>>) -> Seq<u8> {
    match b {
        Some(x) => x,
        None => Seq::<u8>::empty(),
    }
}

/// The remote payload a post projects to: its category and filename from
/// the name, plus tags, body and flag. The number is never part of it.
pub open spec fn payload_of(p: PostView) -> crate::esa_client::PayloadView {
    crate::esa_client::PayloadView {
        category: join_segs(p.fullname.drop_last()),
        name: p.fullname.last(),
        body_md: body_or_empty(p.body),
        tags: p.meta.tags,
        wip: p.meta.wip,
    }
}

impl Post {
    /// Validates the shape of a post name; same judgement as
    /// `name::is_post_name_valid`.
    pub fn is_invalid_name(fullname: &Vec<Vec<u8>>) -> (r: Result<(), Error>)
        ensures
            r is Ok <==> name_ok(fullname.deep_view()),
            r is Err ==> r == Err::<(), Error>(Error::NameInvalid),
    {
        is_post_name_valid(fullname)
    }

    /// Creates a fresh, unsynced post under a validated name. Fails with
    /// `NameInvalid` on a malformed name and with `PostExists` when a
    /// file already sits at the derived path; the caller reports whether
    /// one does.
    pub fn new(fullname: Vec<Vec<u8>>, already_exists: bool) -> (r: Result<Post, Error>)
        ensures
            !name_ok(fullname.deep_view()) ==> r == Err::<Post, Error>(Error::NameInvalid),
            name_ok(fullname.deep_view()) && already_exists ==> r == Err::<Post, Error>(
                Error::PostExists,
            ),
            name_ok(fullname.deep_view()) && !already_exists ==> match r {
                Ok(p) => {
                    &&& p@.fullname == fullname.deep_view()
                    &&& p@.body is None
                    &&& p@.meta.tags == Seq::<Seq<u8>>::empty()
                    &&& p@.meta.wip == true
                    &&& p@.meta.number is None
                },
                Err(_) => false,
            },
    {
        if Post::is_invalid_name(&fullname).is_err() {
            return Err(Error::NameInvalid);
        }
        if already_exists {
            return Err(Error::PostExists);
        }
        let p = Post {
            fullname,
            body: None,
            meta: Meta { tags: Vec::new(), wip: true, number: None },
        };
        proof {
            assert(p@.meta.tags =~~= Seq::<Seq<u8>>::empty());
        }
        Ok(p)
    }

    /// The path of the on-disk artifact for this post.
    pub fn file_path(&self) -> (r: Vec<u8>)
        ensures
            r@ == file_path_spec(self@.fullname),
    {
        file_path_vec(&self.fullname)
    }

    /// The document text that saving this post writes: its metadata and
    /// its body (empty where unloaded), encoded canonically.
    pub fn save_content(&self) -> (r: Vec<u8>)
        ensures
            r@ == encode_spec(self@.meta, body_or_empty(self@.body)),
    {
        match &self.body {
            Some(b) => encode(&self.meta, b),
            None => {
                let empty: Vec<u8> = Vec::new();
                encode(&self.meta, &empty)
            },
        }
    }

    /// Decodes a document text into a post under the given name; fails
    /// exactly as the codec does.
    pub fn from_str(fullname: Vec<Vec<u8>>, content: &Vec<u8>) -> (r: Result<Post, Error>)
        ensures
            match r {
                Ok(p) => {
                    &&& doc_of(content@) == Ok::<(MetaView, Seq<u8>), Error>(
                        (p@.meta, body_or_empty(p@.body)),
                    )
                    &&& p@.body is Some
                    &&& p@.fullname == fullname.deep_view()
                },
                Err(e) => doc_of(content@) == Err::<(MetaView, Seq<u8>), Error>(e),
            },
    {
        match decode(content) {
            Ok((meta, body)) => {
                let ghost bv = body@;
                let p = Post { fullname, body: Some(body), meta };
                proof {
                    assert(p@.body == Some(bv)) by {
                        assert(p@.body matches Some(x) && x =~= bv);
                    };
                }
                Ok(p)
            },
            Err(e) => Err(e),
        }
    }

    /// Builds a post from a remote record under the given name; the
    /// record's body, tags, flag and number carry over.
    pub fn from_remote(fullname: Vec<Vec<u8>>, record: RemoteRecord) -> (r: Post)
        ensures
            r@.fullname == fullname.deep_view(),
            r@.body == record@.body_md,
            r@.meta.tags == record@.tags,
            r@.meta.wip == record@.wip,
            r@.meta.number == record@.number,
    {
        Post {
            fullname,
            body: record.body_md,
            meta: Meta { tags: record.tags, wip: record.wip, number: record.number },
        }
    }

    /// Projects this post into the payload sent on create and update;
    /// the payload never carries the number.
    pub fn to_remote_payload(&self) -> (r: RemotePayload)
        requires
            self@.fullname.len() >= 1,
        ensures
            r@ == payload_of(self@),
    {
        let parent = parent_segs(&self.fullname);
        let category = join_segs_vec(&parent);
        let name = last_seg(&self.fullname);
        let body_md = match &self.body {
            Some(b) => {
                let c = copy_bytes(b);
                proof {
                    assert(c@ =~= body_or_empty(self@.body));
                }
                c
            },
            None => {
                let c: Vec<u8> = Vec::new();
                proof {
                    assert(c@ =~= body_or_empty(self@.body));
                }
                c
            },
        };
        let tags = copy_segs(&self.meta.tags);
        let r = RemotePayload { category, name, body_md, tags, wip: self.meta.wip };
        proof {
            assert(r@.category == payload_of(self@).category);
            assert(r@.name == payload_of(self@).name);
            assert(r@.body_md == payload_of(self@).body_md);
            assert(r@.tags == payload_of(self@).tags);
        }
        r
    }

    /// The stored remote identifier, if one has been assigned.
    pub fn number(&self) -> (r: Option<u64>)
        ensures
            r == self@.meta.number,
    {
        self.meta.number
    }

    /// Applies a push response: a number in the response is adopted; a
    /// response without one leaves the stored number unchanged, so an
    /// assigned number is never lost.
    pub fn apply_push_response(&mut self, resp_number: Option<u64>)
        ensures
            final(self)@.fullname == old(self)@.fullname,
            final(self)@.body == old(self)@.body,
            final(self)@.meta.tags == old(self)@.meta.tags,
            final(self)@.meta.wip == old(self)@.meta.wip,
            final(self)@.meta.number == match resp_number {
                Some(n) => Some(n),
                None => old(self)@.meta.number,
            },
            old(self)@.meta.number is Some ==> final(self)@.meta.number is Some,
    {
        match resp_number {
            Some(n) => {
                self.meta.number = Some(n);
            },
            None => {},
        }
    }
}

} // verus!
