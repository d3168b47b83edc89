//! Model configuration: the curated embedding and reranker models, custom
//! model records, device preference, and the configuration record the
//! surrounding application persists.

use crate::textutil::str_eq;
use vstd::prelude::*;
use vstd::string::{StrSliceExecFns, StringExecFns};

verus! {

/// Which device the models should run on.
#[derive(Clone, Copy, PartialEq, Eq, Structural, Debug)]
pub enum DevicePreference {
    /// Pick the best available device.
    Auto,
    /// Force the CPU.
    Cpu,
    /// Force the Metal GPU.
    Metal,
    /// Force the CUDA GPU.
    Cuda,
}

/// The textual form of a device preference.
pub open spec fn device_name_str(d: DevicePreference) -> Seq<char> {
    match d {
        DevicePreference::Auto => "auto"@,
        DevicePreference::Cpu => "cpu"@,
        DevicePreference::Metal => "metal"@,
        DevicePreference::Cuda => "cuda"@,
    }
}

impl DevicePreference {
    /// The preference's name.
    pub fn name(&self) -> (r: &'static str)
        ensures
            r@ == device_name_str(*self),
    {
        match self {
            DevicePreference::Auto => "auto",
            DevicePreference::Cpu => "cpu",
            DevicePreference::Metal => "metal",
            DevicePreference::Cuda => "cuda",
        }
    }

    /// Every preference, in display order.
    pub fn all() -> (r: Vec<DevicePreference>)
        ensures
            r@.len() == 4,
            r@[0] == DevicePreference::Auto,
            r@[1] == DevicePreference::Cpu,
            r@[2] == DevicePreference::Metal,
            r@[3] == DevicePreference::Cuda,
    {
        let mut v: Vec<DevicePreference> = Vec::new();
        v.push(DevicePreference::Auto);
        v.push(DevicePreference::Cpu);
        v.push(DevicePreference::Metal);
        v.push(DevicePreference::Cuda);
        v
    }
}

impl Default for DevicePreference {
    /// The default is automatic detection.
    fn default() -> (r: Self)
        ensures
            r == DevicePreference::Auto,
    {
        DevicePreference::Auto
    }
}

/// An embedding model: its identifier, display name, remote repository,
/// vector dimension and approximate download size.
pub struct EmbeddingModelConfig {
    pub id: String,
    pub name: String,
    pub repo_id: String,
    pub dimensions: usize,
    pub size_mb: u32,
    pub curated: bool,
}

/// What follows the last `/` of a repository id, or all of it.
pub open spec fn repo_tail(s: Seq<char>) -> Seq<char> {
    s.skip(crate::chunking::rfind(s, '/') + 1)
}

/// The tail of a repository id, computed.
fn repo_tail_exec(repo_id: &str) -> (r: String)
    ensures
        r@ == repo_tail(repo_id@),
{
    let v = crate::textutil::to_chars(repo_id);
    let n = v.len();
    let mut cut: usize = 0;
    let mut i: usize = 0;
    while i < n
        invariant
            0 <= cut <= i <= n,
            n == v@.len(),
            cut >= 1 ==> v@[cut - 1] == '/',
            forall|j: int| cut <= j < i ==> #[trigger] v@[j] != '/',
            cut == 0 ==> forall|j: int| 0 <= j < i ==> #[trigger] v@[j] != '/',
        decreases n - i,
    {
        if v[i] == '/' {
            cut = i + 1;
        }
        i = i + 1;
    }
    proof {
        crate::chunking::lemma_rfind_is(v@, '/', cut - 1);
    }
    String::from_str(repo_id.substring_char(cut, n))
}

impl EmbeddingModelConfig {
    /// A custom model: named after the repository tail, not curated.
    pub fn custom(repo_id: &str, dimensions: usize) -> (r: Self)
        ensures
            r.repo_id@ == repo_id@,
            r.dimensions == dimensions,
            !r.curated,
            r.size_mb == 0,
            r.name@ == repo_tail(repo_id@),
            r.id@ == "custom:"@ + repo_id@,
    {
        let mut id = String::from_str("custom:");
        id.append(repo_id);
        EmbeddingModelConfig {
            id,
            name: repo_tail_exec(repo_id),
            repo_id: String::from_str(repo_id),
            dimensions,
            size_mb: 0,
            curated: false,
        }
    }

    /// The remote repository id.
    pub fn hf_id(&self) -> (r: &str)
        ensures
            r@ == self.repo_id@,
    {
        self.repo_id.as_str()
    }

    pub fn all_minilm_l6_v2() -> (r: Self)
        ensures
            r.id@ == "all-MiniLM-L6-v2"@,
            r.name@ == "all-MiniLM-L6-v2"@,
            r.repo_id@ == "sentence-transformers/all-MiniLM-L6-v2"@,
            r.dimensions == 384,
            r.size_mb == 86,
            r.curated,
    {
        EmbeddingModelConfig {
            id: String::from_str("all-MiniLM-L6-v2"),
            name: String::from_str("all-MiniLM-L6-v2"),
            repo_id: String::from_str("sentence-transformers/all-MiniLM-L6-v2"),
            dimensions: 384,
            size_mb: 86,
            curated: true,
        }
    }

    pub fn all_minilm_l12_v2() -> (r: Self)
        ensures
            r.id@ == "all-MiniLM-L12-v2"@,
            r.name@ == "all-MiniLM-L12-v2"@,
            r.repo_id@ == "sentence-transformers/all-MiniLM-L12-v2"@,
            r.dimensions == 384,
            r.size_mb == 134,
            r.curated,
    {
        EmbeddingModelConfig {
            id: String::from_str("all-MiniLM-L12-v2"),
            name: String::from_str("all-MiniLM-L12-v2"),
            repo_id: String::from_str("sentence-transformers/all-MiniLM-L12-v2"),
            dimensions: 384,
            size_mb: 134,
            curated: true,
        }
    }

    pub fn bge_small_en_v15() -> (r: Self)
        ensures
            r.id@ == "bge-small-en-v1.5"@,
            r.name@ == "bge-small-en-v1.5"@,
            r.repo_id@ == "BAAI/bge-small-en-v1.5"@,
            r.dimensions == 384,
            r.size_mb == 134,
            r.curated,
    {
        EmbeddingModelConfig {
            id: String::from_str("bge-small-en-v1.5"),
            name: String::from_str("bge-small-en-v1.5"),
            repo_id: String::from_str("BAAI/bge-small-en-v1.5"),
            dimensions: 384,
            size_mb: 134,
            curated: true,
        }
    }

    pub fn bge_base_en_v15() -> (r: Self)
        ensures
            r.id@ == "bge-base-en-v1.5"@,
            r.name@ == "bge-base-en-v1.5"@,
            r.repo_id@ == "BAAI/bge-base-en-v1.5"@,
            r.dimensions == 768,
            r.size_mb == 418,
            r.curated,
    {
        EmbeddingModelConfig {
            id: String::from_str("bge-base-en-v1.5"),
            name: String::from_str("bge-base-en-v1.5"),
            repo_id: String::from_str("BAAI/bge-base-en-v1.5"),
            dimensions: 768,
            size_mb: 418,
            curated: true,
        }
    }

    pub fn nomic_embed_text_v15() -> (r: Self)
        ensures
            r.id@ == "nomic-embed-text-v1.5"@,
            r.name@ == "nomic-embed-text-v1.5"@,
            r.repo_id@ == "nomic-ai/nomic-embed-text-v1.5"@,
            r.dimensions == 768,
            r.size_mb == 548,
            r.curated,
    {
        EmbeddingModelConfig {
            id: String::from_str("nomic-embed-text-v1.5"),
            name: String::from_str("nomic-embed-text-v1.5"),
            repo_id: String::from_str("nomic-ai/nomic-embed-text-v1.5"),
            dimensions: 768,
            size_mb: 548,
            curated: true,
        }
    }

    /// The five curated embedding models.
    pub fn curated_models() -> (r: Vec<Self>)
        ensures
            r@.len() == 5,
            forall|i: int| 0 <= i < r@.len() ==> (#[trigger] r@[i]).curated,
    {
        let mut v: Vec<EmbeddingModelConfig> = Vec::new();
        v.push(Self::all_minilm_l6_v2());
        v.push(Self::all_minilm_l12_v2());
        v.push(Self::bge_small_en_v15());
        v.push(Self::bge_base_en_v15());
        v.push(Self::nomic_embed_text_v15());
        v
    }

    /// Looks a curated model up by id: exactly the five curated ids are
    /// found, each yielding its own record.
    pub fn find_curated(id: &str) -> (r: Option<Self>)
        ensures
            match r {
                Option::Some(m) => m.id@ == id@ && m.curated,
                Option::None => id@ != "all-MiniLM-L6-v2"@ && id@ != "all-MiniLM-L12-v2"@ && id@
                    != "bge-small-en-v1.5"@ && id@ != "bge-base-en-v1.5"@ && id@
                    != "nomic-embed-text-v1.5"@,
            },
            id@ == "bge-base-en-v1.5"@ ==> (r matches Option::Some(m) && m.dimensions == 768
                && m.name@ == id@ && m.repo_id@ == "BAAI/bge-base-en-v1.5"@),
            id@ == "bge-small-en-v1.5"@ ==> (r matches Option::Some(m) && m.dimensions == 384
                && m.name@ == id@ && m.repo_id@ == "BAAI/bge-small-en-v1.5"@),
            id@ == "all-MiniLM-L6-v2"@ ==> (r matches Option::Some(m) && m.dimensions == 384
                && m.name@ == id@ && m.repo_id@ == "sentence-transformers/all-MiniLM-L6-v2"@),
            id@ == "all-MiniLM-L12-v2"@ ==> (r matches Option::Some(m) && m.dimensions == 384
                && m.name@ == id@ && m.repo_id@ == "sentence-transformers/all-MiniLM-L12-v2"@),
            id@ == "nomic-embed-text-v1.5"@ ==> (r matches Option::Some(m) && m.dimensions == 768
                && m.name@ == id@ && m.repo_id@ == "nomic-ai/nomic-embed-text-v1.5"@),
    {
        proof {
            reveal_strlit("all-MiniLM-L6-v2");
            reveal_strlit("all-MiniLM-L12-v2");
            reveal_strlit("bge-small-en-v1.5");
            reveal_strlit("bge-base-en-v1.5");
            reveal_strlit("nomic-embed-text-v1.5");
            assert("all-MiniLM-L6-v2"@.len() == 16);
            assert("all-MiniLM-L12-v2"@.len() == 17);
            assert("bge-small-en-v1.5"@.len() == 17);
            assert("bge-base-en-v1.5"@.len() == 16);
            assert("nomic-embed-text-v1.5"@.len() == 21);
            assert("all-MiniLM-L6-v2"@[0] == 'a' && "bge-base-en-v1.5"@[0] == 'b');
            assert("all-MiniLM-L12-v2"@[0] == 'a' && "bge-small-en-v1.5"@[0] == 'b');
            assert("all-MiniLM-L6-v2"@ != "all-MiniLM-L12-v2"@);
            assert("all-MiniLM-L6-v2"@ != "bge-small-en-v1.5"@);
            assert("all-MiniLM-L6-v2"@ != "bge-base-en-v1.5"@);
            assert("all-MiniLM-L6-v2"@ != "nomic-embed-text-v1.5"@);
            assert("all-MiniLM-L12-v2"@ != "bge-small-en-v1.5"@);
            assert("all-MiniLM-L12-v2"@ != "bge-base-en-v1.5"@);
            assert("all-MiniLM-L12-v2"@ != "nomic-embed-text-v1.5"@);
            assert("bge-small-en-v1.5"@ != "bge-base-en-v1.5"@);
            assert("bge-small-en-v1.5"@ != "nomic-embed-text-v1.5"@);
            assert("bge-base-en-v1.5"@ != "nomic-embed-text-v1.5"@);
        }
        if str_eq(id, "all-MiniLM-L6-v2") {
            Option::Some(Self::all_minilm_l6_v2())
        } else if str_eq(id, "all-MiniLM-L12-v2") {
            Option::Some(Self::all_minilm_l12_v2())
        } else if str_eq(id, "bge-small-en-v1.5") {
            Option::Some(Self::bge_small_en_v15())
        } else if str_eq(id, "bge-base-en-v1.5") {
            Option::Some(Self::bge_base_en_v15())
        } else if str_eq(id, "nomic-embed-text-v1.5") {
            Option::Some(Self::nomic_embed_text_v15())
        } else {
            Option::None
        }
    }
}

impl Default for EmbeddingModelConfig {
    /// The default embedding model.
    fn default() -> (r: Self)
        ensures
            r.id@ == "all-MiniLM-L12-v2"@,
            r.dimensions == 384,
    {
        Self::all_minilm_l12_v2()
    }
}

/// A reranker model: like an embedding model, without a vector dimension.
pub struct RerankerModelConfig {
    pub id: String,
    pub name: String,
    pub repo_id: String,
    pub size_mb: u32,
    pub curated: bool,
}

impl RerankerModelConfig {
    /// A custom model: named after the repository tail, not curated.
    pub fn custom(repo_id: &str) -> (r: Self)
        ensures
            r.repo_id@ == repo_id@,
            !r.curated,
            r.size_mb == 0,
            r.name@ == repo_tail(repo_id@),
            r.id@ == "custom:"@ + repo_id@,
    {
        let mut id = String::from_str("custom:");
        id.append(repo_id);
        RerankerModelConfig {
            id,
            name: repo_tail_exec(repo_id),
            repo_id: String::from_str(repo_id),
            size_mb: 0,
            curated: false,
        }
    }

    /// The remote repository id.
    pub fn hf_id(&self) -> (r: &str)
        ensures
            r@ == self.repo_id@,
    {
        self.repo_id.as_str()
    }

    pub fn ms_marco_minilm_l6_v2() -> (r: Self)
        ensures
            r.id@ == "ms-marco-MiniLM-L-6-v2"@,
            r.name@ == "ms-marco-MiniLM-L-6-v2"@,
            r.repo_id@ == "cross-encoder/ms-marco-MiniLM-L-6-v2"@,
            r.size_mb == 86,
            r.curated,
    {
        RerankerModelConfig {
            id: String::from_str("ms-marco-MiniLM-L-6-v2"),
            name: String::from_str("ms-marco-MiniLM-L-6-v2"),
            repo_id: String::from_str("cross-encoder/ms-marco-MiniLM-L-6-v2"),
            size_mb: 86,
            curated: true,
        }
    }

    pub fn bge_reranker_base() -> (r: Self)
        ensures
            r.id@ == "bge-reranker-base"@,
            r.name@ == "bge-reranker-base"@,
            r.repo_id@ == "BAAI/bge-reranker-base"@,
            r.size_mb == 278,
            r.curated,
    {
        RerankerModelConfig {
            id: String::from_str("bge-reranker-base"),
            name: String::from_str("bge-reranker-base"),
            repo_id: String::from_str("BAAI/bge-reranker-base"),
            size_mb: 278,
            curated: true,
        }
    }

    pub fn jina_reranker_v1_turbo_en() -> (r: Self)
        ensures
            r.id@ == "jina-reranker-v1-turbo-en"@,
            r.name@ == "jina-reranker-v1-turbo-en"@,
            r.repo_id@ == "jinaai/jina-reranker-v1-turbo-en"@,
            r.size_mb == 100,
            r.curated,
    {
        RerankerModelConfig {
            id: String::from_str("jina-reranker-v1-turbo-en"),
            name: String::from_str("jina-reranker-v1-turbo-en"),
            repo_id: String::from_str("jinaai/jina-reranker-v1-turbo-en"),
            size_mb: 100,
            curated: true,
        }
    }

    pub fn jina_reranker_v2_base_multilingual() -> (r: Self)
        ensures
            r.id@ == "jina-reranker-v2-base-multilingual"@,
            r.name@ == "jina-reranker-v2-base-multilingual"@,
            r.repo_id@ == "jinaai/jina-reranker-v2-base-multilingual"@,
            r.size_mb == 278,
            r.curated,
    {
        RerankerModelConfig {
            id: String::from_str("jina-reranker-v2-base-multilingual"),
            name: String::from_str("jina-reranker-v2-base-multilingual"),
            repo_id: String::from_str("jinaai/jina-reranker-v2-base-multilingual"),
            size_mb: 278,
            curated: true,
        }
    }

    /// The four curated reranker models.
    pub fn curated_models() -> (r: Vec<Self>)
        ensures
            r@.len() == 4,
            forall|i: int| 0 <= i < r@.len() ==> (#[trigger] r@[i]).curated,
    {
        let mut v: Vec<RerankerModelConfig> = Vec::new();
        v.push(Self::ms_marco_minilm_l6_v2());
        v.push(Self::bge_reranker_base());
        v.push(Self::jina_reranker_v1_turbo_en());
        v.push(Self::jina_reranker_v2_base_multilingual());
        v
    }

    /// Looks a curated model up by id: exactly the four curated ids are
    /// found, each yielding its own record.
    pub fn find_curated(id: &str) -> (r: Option<Self>)
        ensures
            match r {
                Option::Some(m) => m.id@ == id@ && m.curated,
                Option::None => id@ != "ms-marco-MiniLM-L-6-v2"@ && id@ != "bge-reranker-base"@
                    && id@ != "jina-reranker-v1-turbo-en"@ && id@
                    != "jina-reranker-v2-base-multilingual"@,
            },
            id@ == "ms-marco-MiniLM-L-6-v2"@ ==> (r matches Option::Some(m) && m.name@ == id@
                && m.repo_id@ == "cross-encoder/ms-marco-MiniLM-L-6-v2"@),
            id@ == "bge-reranker-base"@ ==> (r matches Option::Some(m) && m.name@ == id@
                && m.repo_id@ == "BAAI/bge-reranker-base"@),
            id@ == "jina-reranker-v1-turbo-en"@ ==> (r matches Option::Some(m) && m.name@ == id@
                && m.repo_id@ == "jinaai/jina-reranker-v1-turbo-en"@),
            id@ == "jina-reranker-v2-base-multilingual"@ ==> (r matches Option::Some(m)
                && m.name@ == id@ && m.repo_id@ == "jinaai/jina-reranker-v2-base-multilingual"@),
    {
        proof {
            reveal_strlit("ms-marco-MiniLM-L-6-v2");
            reveal_strlit("bge-reranker-base");
            reveal_strlit("jina-reranker-v1-turbo-en");
            reveal_strlit("jina-reranker-v2-base-multilingual");
            assert("ms-marco-MiniLM-L-6-v2"@.len() == 22);
            assert("bge-reranker-base"@.len() == 17);
            assert("jina-reranker-v1-turbo-en"@.len() == 25);
            assert("jina-reranker-v2-base-multilingual"@.len() == 34);
        }
        if str_eq(id, "ms-marco-MiniLM-L-6-v2") {
            Option::Some(Self::ms_marco_minilm_l6_v2())
        } else if str_eq(id, "bge-reranker-base") {
            Option::Some(Self::bge_reranker_base())
        } else if str_eq(id, "jina-reranker-v1-turbo-en") {
            Option::Some(Self::jina_reranker_v1_turbo_en())
        } else if str_eq(id, "jina-reranker-v2-base-multilingual") {
            Option::Some(Self::jina_reranker_v2_base_multilingual())
        } else {
            Option::None
        }
    }
}

impl Default for RerankerModelConfig {
    /// The default reranker model.
    fn default() -> (r: Self)
        ensures
            r.id@ == "ms-marco-MiniLM-L-6-v2"@,
    {
        Self::ms_marco_minilm_l6_v2()
    }
}

/// The embedding models of the first configuration schema.
#[derive(Clone, Copy, PartialEq, Eq, Structural, Debug)]
pub enum EmbeddingModel {
    BgeBaseEnV15,
    BgeSmallEnV15,
    NomicEmbedTextV15,
    AllMiniLmL6V2,
    AllMiniLmL12V2,
}

/// The identifier of each old-schema embedding model, which also names it.
pub open spec fn embedding_id_str(m: EmbeddingModel) -> Seq<char> {
    match m {
        EmbeddingModel::BgeBaseEnV15 => "bge-base-en-v1.5"@,
        EmbeddingModel::BgeSmallEnV15 => "bge-small-en-v1.5"@,
        EmbeddingModel::NomicEmbedTextV15 => "nomic-embed-text-v1.5"@,
        EmbeddingModel::AllMiniLmL6V2 => "all-MiniLM-L6-v2"@,
        EmbeddingModel::AllMiniLmL12V2 => "all-MiniLM-L12-v2"@,
    }
}

/// The remote repository of each old-schema embedding model.
pub open spec fn embedding_repo_str(m: EmbeddingModel) -> Seq<char> {
    match m {
        EmbeddingModel::BgeBaseEnV15 => "BAAI/bge-base-en-v1.5"@,
        EmbeddingModel::BgeSmallEnV15 => "BAAI/bge-small-en-v1.5"@,
        EmbeddingModel::NomicEmbedTextV15 => "nomic-ai/nomic-embed-text-v1.5"@,
        EmbeddingModel::AllMiniLmL6V2 => "sentence-transformers/all-MiniLM-L6-v2"@,
        EmbeddingModel::AllMiniLmL12V2 => "sentence-transformers/all-MiniLM-L12-v2"@,
    }
}

impl EmbeddingModel {
    /// The current-schema record for this model.
    pub fn to_config(&self) -> (r: EmbeddingModelConfig)
        ensures
            r.curated,
            r.dimensions == self.dimensions_spec(),
            r.id@ == embedding_id_str(*self),
            r.name@ == embedding_id_str(*self),
            r.repo_id@ == embedding_repo_str(*self),
    {
        match self {
            EmbeddingModel::BgeBaseEnV15 => EmbeddingModelConfig::bge_base_en_v15(),
            EmbeddingModel::BgeSmallEnV15 => EmbeddingModelConfig::bge_small_en_v15(),
            EmbeddingModel::NomicEmbedTextV15 => EmbeddingModelConfig::nomic_embed_text_v15(),
            EmbeddingModel::AllMiniLmL6V2 => EmbeddingModelConfig::all_minilm_l6_v2(),
            EmbeddingModel::AllMiniLmL12V2 => EmbeddingModelConfig::all_minilm_l12_v2(),
        }
    }

    /// The vector dimension of each model.
    pub open spec fn dimensions_spec(self) -> usize {
        match self {
            EmbeddingModel::BgeBaseEnV15 => 768,
            EmbeddingModel::BgeSmallEnV15 => 384,
            EmbeddingModel::NomicEmbedTextV15 => 768,
            EmbeddingModel::AllMiniLmL6V2 => 384,
            EmbeddingModel::AllMiniLmL12V2 => 384,
        }
    }

    pub fn name(&self) -> (r: &'static str)
        ensures
            r@ == embedding_id_str(*self),
    {
        match self {
            EmbeddingModel::BgeBaseEnV15 => "bge-base-en-v1.5",
            EmbeddingModel::BgeSmallEnV15 => "bge-small-en-v1.5",
            EmbeddingModel::NomicEmbedTextV15 => "nomic-embed-text-v1.5",
            EmbeddingModel::AllMiniLmL6V2 => "all-MiniLM-L6-v2",
            EmbeddingModel::AllMiniLmL12V2 => "all-MiniLM-L12-v2",
        }
    }

    pub fn hf_id(&self) -> (r: &'static str)
        ensures
            r@ == embedding_repo_str(*self),
    {
        match self {
            EmbeddingModel::BgeBaseEnV15 => "BAAI/bge-base-en-v1.5",
            EmbeddingModel::BgeSmallEnV15 => "BAAI/bge-small-en-v1.5",
            EmbeddingModel::NomicEmbedTextV15 => "nomic-ai/nomic-embed-text-v1.5",
            EmbeddingModel::AllMiniLmL6V2 => "sentence-transformers/all-MiniLM-L6-v2",
            EmbeddingModel::AllMiniLmL12V2 => "sentence-transformers/all-MiniLM-L12-v2",
        }
    }

    pub fn dimensions(&self) -> (r: usize)
        ensures
            r == self.dimensions_spec(),
    {
        match self {
            EmbeddingModel::BgeBaseEnV15 => 768,
            EmbeddingModel::BgeSmallEnV15 => 384,
            EmbeddingModel::NomicEmbedTextV15 => 768,
            EmbeddingModel::AllMiniLmL6V2 => 384,
            EmbeddingModel::AllMiniLmL12V2 => 384,
        }
    }

    pub fn size_mb(&self) -> (r: u32)
        ensures
            self == EmbeddingModel::BgeBaseEnV15 ==> r == 418,
            self == EmbeddingModel::BgeSmallEnV15 ==> r == 134,
            self == EmbeddingModel::NomicEmbedTextV15 ==> r == 548,
            self == EmbeddingModel::AllMiniLmL6V2 ==> r == 86,
            self == EmbeddingModel::AllMiniLmL12V2 ==> r == 134,
    {
        match self {
            EmbeddingModel::BgeBaseEnV15 => 418,
            EmbeddingModel::BgeSmallEnV15 => 134,
            EmbeddingModel::NomicEmbedTextV15 => 548,
            EmbeddingModel::AllMiniLmL6V2 => 86,
            EmbeddingModel::AllMiniLmL12V2 => 134,
        }
    }

    /// Every model of the old schema.
    pub fn all() -> (r: Vec<EmbeddingModel>)
        ensures
            r@.len() == 5,
    {
        let mut v: Vec<EmbeddingModel> = Vec::new();
        v.push(EmbeddingModel::BgeBaseEnV15);
        v.push(EmbeddingModel::BgeSmallEnV15);
        v.push(EmbeddingModel::NomicEmbedTextV15);
        v.push(EmbeddingModel::AllMiniLmL6V2);
        v.push(EmbeddingModel::AllMiniLmL12V2);
        v
    }
}

/// The reranker models of the first configuration schema.
#[derive(Clone, Copy, PartialEq, Eq, Structural, Debug)]
pub enum RerankerModel {
    JinaRerankerV2BaseMultilingual,
    JinaRerankerV1TurboEn,
    BgeRerankerBase,
    MsMarcoMiniLmL6V2,
}

/// The identifier of each old-schema reranker model, which also names it.
pub open spec fn reranker_id_str(m: RerankerModel) -> Seq<char> {
    match m {
        RerankerModel::JinaRerankerV2BaseMultilingual => "jina-reranker-v2-base-multilingual"@,
        RerankerModel::JinaRerankerV1TurboEn => "jina-reranker-v1-turbo-en"@,
        RerankerModel::BgeRerankerBase => "bge-reranker-base"@,
        RerankerModel::MsMarcoMiniLmL6V2 => "ms-marco-MiniLM-L-6-v2"@,
    }
}

/// The remote repository of each old-schema reranker model.
pub open spec fn reranker_repo_str(m: RerankerModel) -> Seq<char> {
    match m {
        RerankerModel::JinaRerankerV2BaseMultilingual => "jinaai/jina-reranker-v2-base-multilingual"@,
        RerankerModel::JinaRerankerV1TurboEn => "jinaai/jina-reranker-v1-turbo-en"@,
        RerankerModel::BgeRerankerBase => "BAAI/bge-reranker-base"@,
        RerankerModel::MsMarcoMiniLmL6V2 => "cross-encoder/ms-marco-MiniLM-L-6-v2"@,
    }
}

impl RerankerModel {
    /// The current-schema record for this model.
    pub fn to_config(&self) -> (r: RerankerModelConfig)
        ensures
            r.curated,
            r.id@ == reranker_id_str(*self),
            r.name@ == reranker_id_str(*self),
            r.repo_id@ == reranker_repo_str(*self),
    {
        match self {
            RerankerModel::JinaRerankerV2BaseMultilingual => {
                RerankerModelConfig::jina_reranker_v2_base_multilingual()
            },
            RerankerModel::JinaRerankerV1TurboEn => {
                RerankerModelConfig::jina_reranker_v1_turbo_en()
            },
            RerankerModel::BgeRerankerBase => RerankerModelConfig::bge_reranker_base(),
            RerankerModel::MsMarcoMiniLmL6V2 => RerankerModelConfig::ms_marco_minilm_l6_v2(),
        }
    }

    pub fn name(&self) -> (r: &'static str)
        ensures
            r@ == reranker_id_str(*self),
    {
        match self {
            RerankerModel::JinaRerankerV2BaseMultilingual => "jina-reranker-v2-base-multilingual",
            RerankerModel::JinaRerankerV1TurboEn => "jina-reranker-v1-turbo-en",
            RerankerModel::BgeRerankerBase => "bge-reranker-base",
            RerankerModel::MsMarcoMiniLmL6V2 => "ms-marco-MiniLM-L-6-v2",
        }
    }

    pub fn hf_id(&self) -> (r: &'static str)
        ensures
            r@ == reranker_repo_str(*self),
    {
        match self {
            RerankerModel::JinaRerankerV2BaseMultilingual => {
                "jinaai/jina-reranker-v2-base-multilingual"
            },
            RerankerModel::JinaRerankerV1TurboEn => "jinaai/jina-reranker-v1-turbo-en",
            RerankerModel::BgeRerankerBase => "BAAI/bge-reranker-base",
            RerankerModel::MsMarcoMiniLmL6V2 => "cross-encoder/ms-marco-MiniLM-L-6-v2",
        }
    }

    pub fn size_mb(&self) -> (r: u32)
        ensures
            self == RerankerModel::JinaRerankerV2BaseMultilingual ==> r == 278,
            self == RerankerModel::JinaRerankerV1TurboEn ==> r == 100,
            self == RerankerModel::BgeRerankerBase ==> r == 278,
            self == RerankerModel::MsMarcoMiniLmL6V2 ==> r == 86,
    {
        match self {
            RerankerModel::JinaRerankerV2BaseMultilingual => 278,
            RerankerModel::JinaRerankerV1TurboEn => 100,
            RerankerModel::BgeRerankerBase => 278,
            RerankerModel::MsMarcoMiniLmL6V2 => 86,
        }
    }

    /// Every model of the old schema.
    pub fn all() -> (r: Vec<RerankerModel>)
        ensures
            r@.len() == 4,
    {
        let mut v: Vec<RerankerModel> = Vec::new();
        v.push(RerankerModel::JinaRerankerV2BaseMultilingual);
        v.push(RerankerModel::JinaRerankerV1TurboEn);
        v.push(RerankerModel::BgeRerankerBase);
        v.push(RerankerModel::MsMarcoMiniLmL6V2);
        v
    }
}

/// The first configuration schema's version number.
pub fn default_version() -> (r: u32)
    ensures
        r == 1,
{
    1
}

/// The current configuration schema's version number.
pub fn current_version() -> (r: u32)
    ensures
        r == 2,
{
    2
}

/// The persisted configuration: the chosen models, the device, and the
/// schema version. The surrounding application reads and writes the file;
/// a document of the first schema is migrated by building the current-schema
/// records from its enums.
pub struct Config {
    pub embedding_model: EmbeddingModelConfig,
    pub reranker_model: RerankerModelConfig,
    pub device: DevicePreference,
    pub version: u32,
}

impl Default for Config {
    /// The default configuration, in the current schema.
    fn default() -> (r: Self)
        ensures
            r.embedding_model.id@ == "all-MiniLM-L12-v2"@,
            r.reranker_model.id@ == "ms-marco-MiniLM-L-6-v2"@,
            r.device == DevicePreference::Auto,
            r.version == 2,
    {
        Config {
            embedding_model: Default::default(),
            reranker_model: Default::default(),
            device: DevicePreference::Auto,
            version: current_version(),
        }
    }
}

impl Config {
    /// A configuration of the first schema, migrated to the current one.
    pub fn from_legacy(
        embedding_model: EmbeddingModel,
        reranker_model: RerankerModel,
        device: DevicePreference,
    ) -> (r: Self)
        ensures
            r.version == 2,
            r.embedding_model.curated,
            r.reranker_model.curated,
            r.device == device,
            r.embedding_model.dimensions == embedding_model.dimensions_spec(),
            r.embedding_model.id@ == embedding_id_str(embedding_model),
            r.embedding_model.name@ == embedding_id_str(embedding_model),
            r.embedding_model.repo_id@ == embedding_repo_str(embedding_model),
            r.reranker_model.id@ == reranker_id_str(reranker_model),
            r.reranker_model.name@ == reranker_id_str(reranker_model),
            r.reranker_model.repo_id@ == reranker_repo_str(reranker_model),
    {
        Config {
            embedding_model: embedding_model.to_config(),
            reranker_model: reranker_model.to_config(),
            device,
            version: current_version(),
        }
    }

    /// The download size of both chosen models together.
    pub fn total_download_size_mb(&self) -> (r: u32)
        requires
            self.embedding_model.size_mb + self.reranker_model.size_mb <= u32::MAX,
        ensures
            r == self.embedding_model.size_mb + self.reranker_model.size_mb,
    {
        self.embedding_model.size_mb + self.reranker_model.size_mb
    }

    /// Replaces the embedding model.
    pub fn set_embedding_model(&mut self, model: EmbeddingModelConfig)
        ensures
            final(self).embedding_model == model,
            final(self).reranker_model == old(self).reranker_model,
            final(self).device == old(self).device,
            final(self).version == old(self).version,
    {
        self.embedding_model = model;
    }

    /// Replaces the reranker model.
    pub fn set_reranker_model(&mut self, model: RerankerModelConfig)
        ensures
            final(self).reranker_model == model,
            final(self).embedding_model == old(self).embedding_model,
            final(self).device == old(self).device,
            final(self).version == old(self).version,
    {
        self.reranker_model = model;
    }
}

} // verus!
