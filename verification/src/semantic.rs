//! The semantic index: documents, their vectors, and which generation of them
//! is current.

use crate::digest::{sha256_hex, sha256_hex_of};
use crate::error::Error;
use crate::kakao::media_resolver::{join_path, joined};
use crate::text::path::{file_stem, file_stem_of, lemma_stem};
use crate::text::trim::{holds_char, trim, trimmed};
use crate::text::{chars_of, owned, same, string_of};
use crate::types::ParentChunk;
use vstd::prelude::*;
use vstd::string::StringSliceAdditionalSpecFns;

pub mod documents;
pub mod embedder;
pub mod endpoint;
pub mod live;
pub mod run;

verus! {

/// The schema of the indexed units.
pub const CHUNK_SCHEMA_ID: &'static str = "katok-kakao-parent-window-v1";

/// The source of the indexed units.
pub const SOURCE_ID: &'static str = "katok-kakao-parent-windows";

/// The file that names the current generation.
pub const CURRENT_FILE: &'static str = "CURRENT";

/// The directory of the generations.
pub const GENERATIONS_DIR: &'static str = "generations";

/// The directory of the documents under `root`.
pub fn semantic_source_dir(root: &str) -> (dir: String)
    ensures
        dir@ == joined(joined(root@, "source"@), "chunks"@),
{
    let source = join_path(root, "source");
    join_path(source.as_str(), "chunks")
}

/// The file of a document.
pub fn document_path(dir: &str, chunk_id: &str) -> (path: String)
    ensures
        path@ == joined(dir@, chunk_id@ + ".md"@),
{
    let name = owned(chunk_id).concat(".md");
    join_path(dir, name.as_str())
}

/// The path under which a chunk is known to the vector store.
pub fn minsync_chunk_path(chunk_id: &str) -> (path: String)
    ensures
        path@ == "chunks/"@ + chunk_id@ + ".md"@,
{
    owned("chunks/").concat(chunk_id).concat(".md")
}

/// The chunk that a path of the vector store stands for.
pub fn chunk_id_from_minsync_path(path: &str) -> (id: Option<String>)
    ensures
        match id {
            Some(id) => file_stem(path@) == Some(id@),
            None => file_stem(path@) is None,
        },
{
    file_stem_of(path)
}

/// The chunk that a document's file stands for.
pub fn chunk_id_from_path(path: &str) -> (r: Result<String, Error>)
    ensures
        match r {
            Ok(id) => file_stem(path@) == Some(id@),
            Err(error) => file_stem(path@) is None && (error matches Error::InvalidSemanticPath(shown)
                && shown@ == path@),
        },
{
    match file_stem_of(path) {
        Some(id) => Ok(id),
        None => Err(Error::InvalidSemanticPath(owned(path))),
    }
}

/// A chunk is found again by its path in the vector store, and by the file of
/// its document.
pub proof fn law_paths_lead_back(root: Seq<char>, chunk_id: Seq<char>)
    requires
        chunk_id.len() > 0,
        !chunk_id.contains('/'),
    ensures
        file_stem("chunks/"@ + chunk_id + ".md"@) == Some(chunk_id),
        file_stem(joined(root, chunk_id + ".md"@)) == Some(chunk_id),
{
    reveal_strlit("chunks/");
    reveal_strlit(".md");
    let ext = seq!['m', 'd'];
    assert(".md"@ == seq!['.'] + ext);
    assert("chunks/"@.last() == '/');
    assert("chunks/"@ + chunk_id + ".md"@ == "chunks/"@ + chunk_id + seq!['.'] + ext);
    assert forall|c: char| ext.contains(c) implies c == 'm' || c == 'd' by {}
    lemma_stem("chunks/"@, chunk_id, ext);
    let name = chunk_id + ".md"@;
    let path = joined(root, name);
    let dir = path.take(path.len() - name.len());
    assert(path == dir + chunk_id + seq!['.'] + ext);
    lemma_stem(dir, chunk_id, ext);
}

/// The digest that stands for a text, in hexadecimal.
pub open spec fn content_digest(text: Seq<char>) -> Seq<char> {
    sha256_hex(vstd::utf8::encode_utf8(text))
}

/// The digest that stands for a text, in hexadecimal.
pub fn content_hash(text: &str) -> (digest: String)
    ensures
        digest@ == content_digest(text@),
        digest@.len() == 64,
{
    sha256_hex_of(text.as_bytes())
}

/// The text whose digest stands for a list of windows: each id and the digest
/// of each text, all ended by a zero character.
pub open spec fn revision_material(windows: Seq<ParentChunk>) -> Seq<char>
    decreases windows.len(),
{
    if windows.len() == 0 {
        seq![]
    } else {
        let w = windows.last();
        revision_material(windows.drop_last()) + w.parent_id@ + seq!['\0'] + content_digest(w.text@)
            + seq!['\0']
    }
}

/// What stands for the searchable content of an archive.
pub open spec fn revision(windows: Seq<ParentChunk>) -> Seq<char> {
    content_digest(revision_material(windows))
}

/// What stands for the searchable content of an archive: two archives with the
/// same windows, ids and texts, have the same revision.
pub fn archive_revision_for_parents(parents: &[ParentChunk]) -> (r: String)
    ensures
        r@ == revision(parents@),
        r@.len() == 64,
{
    let mut material: String = String::new();
    for i in 0..parents.len()
        invariant
            material@ == revision_material(parents@.take(i as int)),
    {
        proof {
            assert(parents@.take(i + 1).drop_last() =~= parents@.take(i as int));
        }
        let digest = content_hash(parents[i].text.as_str());
        let ghost before = material@;
        material.append(parents[i].parent_id.as_str());
        material.push('\0');
        material.append(digest.as_str());
        material.push('\0');
        proof {
            assert(material@ =~= before + parents@[i as int].parent_id@ + seq!['\0'] + digest@
                + seq!['\0']);
        }
    }
    proof {
        assert(parents@.take(parents@.len() as int) =~= parents@);
    }
    content_hash(material.as_str())
}

/// Whether a name can be that of a generation: it is one path component, and
/// none that means the directory itself or the one above.
pub open spec fn generation_like(name: Seq<char>) -> bool {
    &&& name.len() > 0
    &&& !name.contains('/')
    &&& !name.contains('\\')
    &&& name != "."@
    &&& name != ".."@
}

/// The generation that the pointer file names.
pub fn generation_named(pointer: &str) -> (r: Result<String, Error>)
    ensures
        match r {
            Ok(name) => name@ == trim(pointer@) && generation_like(name@),
            Err(error) => !generation_like(trim(pointer@)) && error is SemanticIndexStale
                && error->SemanticIndexStale_0@ == "CURRENT contains an invalid generation id"@,
        },
{
    let chars = chars_of(pointer);
    let bare = trimmed(chars.as_slice());
    let name = string_of(bare.as_slice());
    if bare.len() == 0 || holds_char(bare.as_slice(), '/') || holds_char(bare.as_slice(), '\\')
        || same(name.as_str(), ".") || same(name.as_str(), "..") {
        return Err(
            Error::SemanticIndexStale(owned("CURRENT contains an invalid generation id")),
        );
    }
    Ok(name)
}

/// The directory of a generation.
pub fn generation_dir(root: &str, name: &str) -> (path: String)
    ensures
        path@ == joined(joined(root@, "generations"@), name@),
{
    let generations = join_path(root, "generations");
    join_path(generations.as_str(), name)
}

/// An accepted generation lies directly in the directory of generations: its
/// name is appended to it, whatever the pointer file says.
pub proof fn law_generation_stays_inside(root: Seq<char>, name: Seq<char>)
    requires
        generation_like(name),
    ensures
        joined(joined(root, "generations"@), name) == joined(root, "generations"@).push('/')
            + name,
{
    reveal_strlit("generations");
    assert(name.contains(name[0]));
    let dir = joined(root, "generations"@);
    assert(dir.last() == 's');
}

// ---------------------------------------------------------------------------
// Laws
// ---------------------------------------------------------------------------

/// What stands for an archive is made window by window: the id of each and the
/// digest of its text, in order.
pub proof fn law_the_revision_covers_every_window(a: Seq<ParentChunk>, b: Seq<ParentChunk>)
    ensures
        revision_material(a + b) == revision_material(a) + revision_material(b),
        forall|w: ParentChunk|
            #![trigger revision_material(seq![w])]
            revision_material(seq![w]) == w.parent_id@ + seq!['\0'] + content_digest(w.text@)
                + seq!['\0'],
        window_pairs_agree(a, b) ==> revision(a) == revision(b),
    decreases b.len(),
{
    assert forall|w: ParentChunk|
        #![trigger revision_material(seq![w])]
        revision_material(seq![w]) == w.parent_id@ + seq!['\0'] + content_digest(w.text@)
            + seq!['\0'] by {
        reveal_with_fuel(revision_material, 2);
        assert(seq![w].drop_last() =~= Seq::<ParentChunk>::empty());
        assert(seq![w].last() == w);
        assert(revision_material(seq![w]) =~= w.parent_id@ + seq!['\0'] + content_digest(w.text@)
            + seq!['\0']);
    }
    if window_pairs_agree(a, b) {
        lemma_same_material(a, b);
    }
    if b.len() == 0 {
        assert(a + b =~= a);
        assert(revision_material(a) + revision_material(b) =~= revision_material(a));
    } else {
        law_the_revision_covers_every_window(a, b.drop_last());
        assert((a + b).drop_last() =~= a + b.drop_last());
        assert((a + b).last() == b.last());
        assert(revision_material(a + b) =~= revision_material(a) + revision_material(b));
    }
}

/// Whether two archives have the same windows, by id and text.
pub open spec fn window_pairs_agree(a: Seq<ParentChunk>, b: Seq<ParentChunk>) -> bool {
    a.len() == b.len() && forall|i: int|
        0 <= i < a.len() ==> (#[trigger] a[i]).parent_id@ == b[i].parent_id@ && a[i].text@
            == b[i].text@
}

proof fn lemma_same_material(a: Seq<ParentChunk>, b: Seq<ParentChunk>)
    requires
        window_pairs_agree(a, b),
    ensures
        revision_material(a) == revision_material(b),
    decreases a.len(),
{
    if a.len() > 0 {
        let (x, y) = (a.drop_last(), b.drop_last());
        assert forall|i: int| 0 <= i < x.len() implies (#[trigger] x[i]).parent_id@
            == y[i].parent_id@ && x[i].text@ == y[i].text@ by {
            assert(x[i] == a[i] && y[i] == b[i]);
        }
        lemma_same_material(x, y);
        assert(a[a.len() - 1].parent_id@ == b[b.len() - 1].parent_id@);
    }
}

/// A name of a generation is one step of a path: it holds no separator, and does
/// not lead to the directory itself or the one above. Any other is accepted.
pub proof fn law_a_generation_is_one_step(name: Seq<char>)
    ensures
        generation_like(name) ==> name.len() > 0 && !name.contains('/') && !name.contains('\\')
            && name != seq!['.'] && name != seq!['.', '.'],
        name.len() > 2 && !name.contains('/') && !name.contains('\\') ==> generation_like(name),
{
    reveal_strlit(".");
    reveal_strlit("..");
    assert("."@ =~= seq!['.']);
    assert(".."@ =~= seq!['.', '.']);
}

} // verus!
