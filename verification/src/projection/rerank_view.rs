use vstd::prelude::*;
use vstd::utf8::encode_utf8;

use crate::dependency::{projection_input_hash_spec, ProjectionInputHash, ProjectionKind};
use crate::encode::{extend_bytes, framed, put_framed};
use crate::text::{blank, chars_of, extend_chars, is_blank, string_of};
use crate::{invalid, invalid_value, DerivedError};

verus! {

pub const RERANK_VIEW_PROJECTION_VERSION: u32 = 1;

/// The non-empty parts, one per line.
pub open spec fn joined_parts(parts: Seq<Seq<char>>) -> Seq<char>
    decreases parts.len(),
{
    if parts.len() == 0 {
        seq![]
    } else {
        let earlier = joined_parts(parts.drop_last());
        let part = parts.last();
        if part.len() == 0 {
            earlier
        } else if earlier.len() == 0 {
            part
        } else {
            earlier.push('\n') + part
        }
    }
}

/// The canonical bytes of a rerank view: its handle and content.
pub open spec fn rerank_view_bytes(handle: Seq<char>, content: Seq<char>) -> Seq<u8> {
    encode_utf8("memoria-rerank-view-v1\0"@) + framed(encode_utf8(handle)) + framed(
        encode_utf8(content),
    )
}

/// What a rerank view holds.
pub ghost struct RerankView {
    pub handle: Seq<char>,
    pub content: Seq<char>,
    pub input_hash: Seq<u8>,
    pub producer_signature: Seq<char>,
}

/// The bounded text a reranker sees for one candidate, with its handle.
#[derive(Clone, Debug)]
pub struct RerankViewV1 {
    handle: String,
    content: String,
    input_hash: ProjectionInputHash,
    producer_signature: String,
}

impl View for RerankViewV1 {
    type V = RerankView;

    closed spec fn view(&self) -> RerankView {
        RerankView {
            handle: self.handle@,
            content: self.content@,
            input_hash: self.input_hash@,
            producer_signature: self.producer_signature@,
        }
    }
}

fn append_part(output: &mut Vec<char>, part: &str)
    ensures
        final(output)@ == (if part@.len() == 0 {
            old(output)@
        } else if old(output)@.len() == 0 {
            part@
        } else {
            old(output)@.push('\n') + part@
        }),
{
    if part.is_empty() {
        return;
    }
    if output.len() > 0 {
        output.push('\n');
    }
    let chars = chars_of(part);
    extend_chars(output, chars.as_slice());
}

impl RerankViewV1 {
    /// A view of the title, section path, matching text and neighboring
    /// context (the non-empty ones, one per line); the handle and the
    /// producer must not be blank.
    pub fn build(
        handle: &str,
        document_title: &str,
        section_path: &str,
        match_text: &str,
        neighboring_context: &str,
        producer_signature: &str,
    ) -> (result: Result<Self, DerivedError>)
        ensures
            is_blank(handle@) ==> (result matches Err(error) && invalid_value(
                error,
                "rerank view handle must not be empty"@,
            )),
            !is_blank(handle@) && is_blank(producer_signature@) ==> (result matches Err(error)
                && invalid_value(error, "rerank view producer signature must not be empty"@)),
            !is_blank(handle@) && !is_blank(producer_signature@) ==> (result matches Ok(view) && {
                let content = joined_parts(
                    seq![document_title@, section_path@, match_text@, neighboring_context@],
                );
                view@ == RerankView {
                    handle: handle@,
                    content,
                    input_hash: projection_input_hash_spec(
                        ProjectionKind::RerankView,
                        rerank_view_bytes(handle@, content),
                        producer_signature@,
                    ),
                    producer_signature: producer_signature@,
                }
            }),
    {
        if blank(handle) {
            return Err(invalid("rerank view handle must not be empty"));
        }
        if blank(producer_signature) {
            return Err(invalid("rerank view producer signature must not be empty"));
        }
        let ghost parts = seq![document_title@, section_path@, match_text@, neighboring_context@];
        let mut output: Vec<char> = Vec::new();
        let ghost p1 = seq![document_title@];
        let ghost p2 = seq![document_title@, section_path@];
        let ghost p3 = seq![document_title@, section_path@, match_text@];
        append_part(&mut output, document_title);
        proof {
            assert(p1.drop_last() =~= Seq::<Seq<char>>::empty());
            assert(joined_parts(Seq::<Seq<char>>::empty()) =~= Seq::<char>::empty());
            assert(output@ =~= joined_parts(p1));
        }
        append_part(&mut output, section_path);
        proof {
            assert(p2.drop_last() =~= p1);
            assert(output@ == joined_parts(p2));
        }
        append_part(&mut output, match_text);
        proof {
            assert(p3.drop_last() =~= p2);
            assert(output@ == joined_parts(p3));
        }
        append_part(&mut output, neighboring_context);
        proof {
            assert(parts.drop_last() =~= p3);
            assert(output@ == joined_parts(parts));
        }
        let content = string_of(output.as_slice());
        let mut bytes: Vec<u8> = Vec::new();
        let domain: &str = "memoria-rerank-view-v1\0";
        extend_bytes(&mut bytes, domain.as_bytes());
        put_framed(&mut bytes, handle.as_bytes());
        put_framed(&mut bytes, content.as_str().as_bytes());
        let input_hash = ProjectionInputHash::new(
            ProjectionKind::RerankView,
            bytes.as_slice(),
            producer_signature,
        );
        Ok(
            RerankViewV1 {
                handle: crate::text::owned(handle),
                content,
                input_hash,
                producer_signature: crate::text::owned(producer_signature),
            },
        )
    }

    pub fn handle(&self) -> (handle: &str)
        ensures
            handle@ == self@.handle,
    {
        self.handle.as_str()
    }

    pub fn content(&self) -> (content: &str)
        ensures
            content@ == self@.content,
    {
        self.content.as_str()
    }

    pub fn input_hash(&self) -> (hash: &ProjectionInputHash)
        ensures
            hash@ == self@.input_hash,
    {
        &self.input_hash
    }

    pub fn producer_signature(&self) -> (signature: &str)
        ensures
            signature@ == self@.producer_signature,
    {
        self.producer_signature.as_str()
    }

    pub fn version() -> (version: u32)
        ensures
            version == RERANK_VIEW_PROJECTION_VERSION,
    {
        RERANK_VIEW_PROJECTION_VERSION
    }
}

} // verus!
