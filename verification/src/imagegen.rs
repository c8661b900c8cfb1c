//! Image generation: the models on offer, what a generation needs, the shape it
//! takes, and the file that it becomes.

use vstd::prelude::*;
use crate::figures::{
    double_of, fmt_bytes, law_small_numbers_are_exact, lemma_double_is_half_at_least,
    round_to_double, size_text,
};
use crate::hardware::Gpu;
use crate::hub::{stored_name, store_as};
use crate::text::{
    chars_of, contains, decimal, decimal_text, ends, is_blank_text, lower_text, lowered, mentions,
    read_signed, signed_in, text_of, trim_text, trimmed, views,
};
use vstd::slice::slice_subrange;

verus! {

// ---------------------------------------------------------------------------
// Models

/// What a weight file is to its model.
#[derive(Clone, Copy, PartialEq, Eq, Structural, Debug)]
pub enum Role {
    /// A whole model in one file.
    Checkpoint,
    /// The diffusion model alone.
    Diffusion,
    Vae,
    /// The text encoder.
    Llm,
    /// The text encoder's eyes, for reference images.
    LlmVision,
}

/// One weight file of an image model, and where it comes from.
#[derive(Clone, Copy, Debug)]
pub struct WeightFile {
    pub repo: &'static str,
    /// The path inside the repository.
    pub path: &'static str,
    pub size: u64,
    pub role: Role,
}

pub struct WeightView {
    pub repo: Seq<char>,
    pub path: Seq<char>,
    pub size: u64,
    pub role: Role,
}

impl View for WeightFile {
    type V = WeightView;

    open spec fn view(&self) -> WeightView {
        WeightView { repo: self.repo@, path: self.path@, size: self.size, role: self.role }
    }
}

pub open spec fn weight_views(v: Seq<WeightFile>) -> Seq<WeightView> {
    v.map_values(|f: WeightFile| f@)
}

/// An image model.
pub struct ImageModel {
    pub name: &'static str,
    /// What the choice costs.
    pub note: &'static str,
    pub files: Vec<WeightFile>,
    /// The steps and the guidance, in tenths, that the model was made for.
    pub steps: usize,
    pub cfg_tenths: u32,
    pub flash_attn: bool,
    /// The sampler, or -1 for the engine's default.
    pub sampler: i32,
    /// The edge that the model was trained at, and the smallest and largest at
    /// which it behaves.
    pub native: usize,
    pub min_size: usize,
    pub max_size: usize,
    /// Device memory of its compute buffer at 512 by 512.
    pub vram: u64,
    /// Whether it can compose from a reference image.
    pub reference: bool,
    /// Whether it can be asked for a transparent background.
    pub transparency: bool,
    /// How to show the image forming, and how often.
    pub preview: (i32, i32),
}

pub struct ImageModelView {
    pub name: Seq<char>,
    pub note: Seq<char>,
    pub files: Seq<WeightView>,
    pub steps: usize,
    pub cfg_tenths: u32,
    pub flash_attn: bool,
    pub sampler: i32,
    pub native: usize,
    pub min_size: usize,
    pub max_size: usize,
    pub vram: u64,
    pub reference: bool,
    pub transparency: bool,
    pub preview: (i32, i32),
}

impl View for ImageModel {
    type V = ImageModelView;

    open spec fn view(&self) -> ImageModelView {
        ImageModelView {
            name: self.name@,
            note: self.note@,
            files: weight_views(self.files@),
            steps: self.steps,
            cfg_tenths: self.cfg_tenths,
            flash_attn: self.flash_attn,
            sampler: self.sampler,
            native: self.native,
            min_size: self.min_size,
            max_size: self.max_size,
            vram: self.vram,
            reference: self.reference,
            transparency: self.transparency,
            preview: self.preview,
        }
    }
}

pub open spec fn image_model_views(v: Seq<ImageModel>) -> Seq<ImageModelView> {
    v.map_values(|m: ImageModel| m@)
}

/// The sampler that leaves the choice to the engine.
pub open spec fn default_sampler() -> i32 {
    (-1) as i32
}

/// The image models on offer.
pub open spec fn model_list() -> Seq<ImageModelView> {
    seq![
        ImageModelView {
            name: "Stable Diffusion 1.5"@,
            note: "2022, and it shows — but much the quickest of these, and the smallest download"@,
            files: seq![
                WeightView {
                    repo: "second-state/stable-diffusion-v1-5-GGUF"@,
                    path: "stable-diffusion-v1-5-pruned-emaonly-Q8_0.gguf"@,
                    size: 1_763_578_176,
                    role: Role::Checkpoint,
                },
            ],
            steps: 10,
            cfg_tenths: 75,
            flash_attn: false,
            sampler: default_sampler(),
            native: 512,
            min_size: 384,
            max_size: 768,
            vram: 559_900_000,
            reference: false,
            transparency: false,
            preview: (1, 1),
        },
        ImageModelView {
            name: "Z-Image-Turbo"@,
            note: "2025, and far better pictures. Several times slower than SD 1.5, and worth it."@,
            files: seq![
                WeightView {
                    repo: "leejet/Z-Image-Turbo-GGUF"@,
                    path: "z_image_turbo-Q4_K.gguf"@,
                    size: 3_864_250_304,
                    role: Role::Diffusion,
                },
                WeightView {
                    repo: "Comfy-Org/z_image_turbo"@,
                    path: "split_files/vae/ae.safetensors"@,
                    size: 335_304_388,
                    role: Role::Vae,
                },
                WeightView {
                    repo: "unsloth/Qwen3-4B-Instruct-2507-GGUF"@,
                    path: "Qwen3-4B-Instruct-2507-Q4_K_M.gguf"@,
                    size: 2_497_281_120,
                    role: Role::Llm,
                },
            ],
            steps: 8,
            cfg_tenths: 10,
            flash_attn: true,
            sampler: default_sampler(),
            native: 1024,
            min_size: 512,
            max_size: 1536,
            vram: 173_310_000,
            reference: false,
            transparency: false,
            preview: (1, 1),
        },
        ImageModelView {
            name: "Z-Image-Turbo (Q3_K)"@,
            note: "the same model squeezed smaller: less to fetch and to hold, for some loss of detail"@,
            files: seq![
                WeightView {
                    repo: "leejet/Z-Image-Turbo-GGUF"@,
                    path: "z_image_turbo-Q3_K.gguf"@,
                    size: 3_143_559_104,
                    role: Role::Diffusion,
                },
                WeightView {
                    repo: "Comfy-Org/z_image_turbo"@,
                    path: "split_files/vae/ae.safetensors"@,
                    size: 335_304_388,
                    role: Role::Vae,
                },
                WeightView {
                    repo: "unsloth/Qwen3-4B-Instruct-2507-GGUF"@,
                    path: "Qwen3-4B-Instruct-2507-Q4_K_M.gguf"@,
                    size: 2_497_281_120,
                    role: Role::Llm,
                },
            ],
            steps: 8,
            cfg_tenths: 10,
            flash_attn: true,
            sampler: default_sampler(),
            native: 1024,
            min_size: 512,
            max_size: 1536,
            vram: 173_310_000,
            reference: false,
            transparency: false,
            preview: (1, 1),
        },
        ImageModelView {
            name: "Mage-Flow-Edit-Turbo"@,
            note: "2026, and the one to reach for: four steps rather than eight or twenty, good pictures from a plain prompt, and the only model here under 6 GB that can compose from a picture you give it."@,
            files: seq![
                WeightView {
                    repo: "johnsor/Mage-Flow-Edit-Turbo-GGUF"@,
                    path: "mage-flow-edit-turbo-Q5_K.gguf"@,
                    size: 2_841_935_584,
                    role: Role::Diffusion,
                },
                WeightView {
                    repo: "Comfy-Org/Mage-Flow"@,
                    path: "vae/mage_flow_vae_bf16.safetensors"@,
                    size: 345_053_056,
                    role: Role::Vae,
                },
                WeightView {
                    repo: "Qwen/Qwen3-VL-4B-Instruct-GGUF"@,
                    path: "Qwen3VL-4B-Instruct-Q4_K_M.gguf"@,
                    size: 2_497_281_664,
                    role: Role::Llm,
                },
                WeightView {
                    repo: "Qwen/Qwen3-VL-4B-Instruct-GGUF"@,
                    path: "mmproj-Qwen3VL-4B-Instruct-Q8_0.gguf"@,
                    size: 453_974_304,
                    role: Role::LlmVision,
                },
            ],
            steps: 4,
            cfg_tenths: 10,
            flash_attn: true,
            sampler: 0,
            native: 1024,
            min_size: 512,
            max_size: 2048,
            vram: 151_740_000,
            reference: true,
            transparency: false,
            preview: (3, 2),
        },
        ImageModelView {
            name: "Qwen-Image 2.1"@,
            note: "2026, the newest of these. An order of magnitude slower than SD 1.5 on a CPU, and the largest download — meant for a GPU build."@,
            files: seq![
                WeightView {
                    repo: "leejet/Qwen-Image-2.1-GGUF"@,
                    path: "qwen_image_2.1-Q4_K.gguf"@,
                    size: 4_197_494_816,
                    role: Role::Diffusion,
                },
                WeightView {
                    repo: "Comfy-Org/Qwen-Image-2.1"@,
                    path: "vae/qwen_image_2.1_vae_bf16.safetensors"@,
                    size: 675_509_688,
                    role: Role::Vae,
                },
                WeightView {
                    repo: "Qwen/Qwen3-VL-8B-Instruct-GGUF"@,
                    path: "Qwen3VL-8B-Instruct-Q4_K_M.gguf"@,
                    size: 5_027_784_800,
                    role: Role::Llm,
                },
                WeightView {
                    repo: "Qwen/Qwen3-VL-8B-Instruct-GGUF"@,
                    path: "mmproj-Qwen3VL-8B-Instruct-Q8_0.gguf"@,
                    size: 752_289_728,
                    role: Role::LlmVision,
                },
            ],
            steps: 20,
            cfg_tenths: 60,
            flash_attn: true,
            sampler: 0,
            native: 1024,
            min_size: 512,
            max_size: 1536,
            vram: 227_430_000,
            reference: true,
            transparency: true,
            preview: (3, 4),
        },
        ImageModelView {
            name: "Qwen-Image 2.1 (Q2_K)"@,
            note: "the smallest Qwen, and the quantisation shows. Shares its VAE and text encoder with the larger one."@,
            files: seq![
                WeightView {
                    repo: "leejet/Qwen-Image-2.1-GGUF"@,
                    path: "qwen_image_2.1-Q2_K.gguf"@,
                    size: 2_561_716_256,
                    role: Role::Diffusion,
                },
                WeightView {
                    repo: "Comfy-Org/Qwen-Image-2.1"@,
                    path: "vae/qwen_image_2.1_vae_bf16.safetensors"@,
                    size: 675_509_688,
                    role: Role::Vae,
                },
                WeightView {
                    repo: "Qwen/Qwen3-VL-8B-Instruct-GGUF"@,
                    path: "Qwen3VL-8B-Instruct-Q4_K_M.gguf"@,
                    size: 5_027_784_800,
                    role: Role::Llm,
                },
                WeightView {
                    repo: "Qwen/Qwen3-VL-8B-Instruct-GGUF"@,
                    path: "mmproj-Qwen3VL-8B-Instruct-Q8_0.gguf"@,
                    size: 752_289_728,
                    role: Role::LlmVision,
                },
            ],
            steps: 20,
            cfg_tenths: 60,
            flash_attn: true,
            sampler: 0,
            native: 1024,
            min_size: 512,
            max_size: 1536,
            vram: 227_430_000,
            reference: true,
            transparency: true,
            preview: (3, 4),
        },
    ]
}

/// The image models on offer.
pub fn models() -> (r: Vec<ImageModel>)
    ensures
        image_model_views(r@) == model_list(),
{
    let mut v: Vec<ImageModel> = Vec::new();
    let mut files0: Vec<WeightFile> = Vec::new();
    files0.push(
        WeightFile {
            repo: "second-state/stable-diffusion-v1-5-GGUF",
            path: "stable-diffusion-v1-5-pruned-emaonly-Q8_0.gguf",
            size: 1_763_578_176,
            role: Role::Checkpoint,
        },
    );
    assert(weight_views(files0@) =~= model_list()[0].files);
    v.push(
        ImageModel {
            name: "Stable Diffusion 1.5",
            note: "2022, and it shows — but much the quickest of these, and the smallest download",
            files: files0,
            steps: 10,
            cfg_tenths: 75,
            flash_attn: false,
            sampler: -1,
            native: 512,
            min_size: 384,
            max_size: 768,
            vram: 559_900_000,
            reference: false,
            transparency: false,
            preview: (1, 1),
        },
    );
    let mut files1: Vec<WeightFile> = Vec::new();
    files1.push(
        WeightFile {
            repo: "leejet/Z-Image-Turbo-GGUF",
            path: "z_image_turbo-Q4_K.gguf",
            size: 3_864_250_304,
            role: Role::Diffusion,
        },
    );
    files1.push(
        WeightFile {
            repo: "Comfy-Org/z_image_turbo",
            path: "split_files/vae/ae.safetensors",
            size: 335_304_388,
            role: Role::Vae,
        },
    );
    files1.push(
        WeightFile {
            repo: "unsloth/Qwen3-4B-Instruct-2507-GGUF",
            path: "Qwen3-4B-Instruct-2507-Q4_K_M.gguf",
            size: 2_497_281_120,
            role: Role::Llm,
        },
    );
    assert(weight_views(files1@) =~= model_list()[1].files);
    v.push(
        ImageModel {
            name: "Z-Image-Turbo",
            note: "2025, and far better pictures. Several times slower than SD 1.5, and worth it.",
            files: files1,
            steps: 8,
            cfg_tenths: 10,
            flash_attn: true,
            sampler: -1,
            native: 1024,
            min_size: 512,
            max_size: 1536,
            vram: 173_310_000,
            reference: false,
            transparency: false,
            preview: (1, 1),
        },
    );
    let mut files2: Vec<WeightFile> = Vec::new();
    files2.push(
        WeightFile {
            repo: "leejet/Z-Image-Turbo-GGUF",
            path: "z_image_turbo-Q3_K.gguf",
            size: 3_143_559_104,
            role: Role::Diffusion,
        },
    );
    files2.push(
        WeightFile {
            repo: "Comfy-Org/z_image_turbo",
            path: "split_files/vae/ae.safetensors",
            size: 335_304_388,
            role: Role::Vae,
        },
    );
    files2.push(
        WeightFile {
            repo: "unsloth/Qwen3-4B-Instruct-2507-GGUF",
            path: "Qwen3-4B-Instruct-2507-Q4_K_M.gguf",
            size: 2_497_281_120,
            role: Role::Llm,
        },
    );
    assert(weight_views(files2@) =~= model_list()[2].files);
    v.push(
        ImageModel {
            name: "Z-Image-Turbo (Q3_K)",
            note: "the same model squeezed smaller: less to fetch and to hold, for some loss of detail",
            files: files2,
            steps: 8,
            cfg_tenths: 10,
            flash_attn: true,
            sampler: -1,
            native: 1024,
            min_size: 512,
            max_size: 1536,
            vram: 173_310_000,
            reference: false,
            transparency: false,
            preview: (1, 1),
        },
    );
    let mut files3: Vec<WeightFile> = Vec::new();
    files3.push(
        WeightFile {
            repo: "johnsor/Mage-Flow-Edit-Turbo-GGUF",
            path: "mage-flow-edit-turbo-Q5_K.gguf",
            size: 2_841_935_584,
            role: Role::Diffusion,
        },
    );
    files3.push(
        WeightFile {
            repo: "Comfy-Org/Mage-Flow",
            path: "vae/mage_flow_vae_bf16.safetensors",
            size: 345_053_056,
            role: Role::Vae,
        },
    );
    files3.push(
        WeightFile {
            repo: "Qwen/Qwen3-VL-4B-Instruct-GGUF",
            path: "Qwen3VL-4B-Instruct-Q4_K_M.gguf",
            size: 2_497_281_664,
            role: Role::Llm,
        },
    );
    files3.push(
        WeightFile {
            repo: "Qwen/Qwen3-VL-4B-Instruct-GGUF",
            path: "mmproj-Qwen3VL-4B-Instruct-Q8_0.gguf",
            size: 453_974_304,
            role: Role::LlmVision,
        },
    );
    assert(weight_views(files3@) =~= model_list()[3].files);
    v.push(
        ImageModel {
            name: "Mage-Flow-Edit-Turbo",
            note: "2026, and the one to reach for: four steps rather than eight or twenty, good pictures from a plain prompt, and the only model here under 6 GB that can compose from a picture you give it.",
            files: files3,
            steps: 4,
            cfg_tenths: 10,
            flash_attn: true,
            sampler: 0,
            native: 1024,
            min_size: 512,
            max_size: 2048,
            vram: 151_740_000,
            reference: true,
            transparency: false,
            preview: (3, 2),
        },
    );
    let mut files4: Vec<WeightFile> = Vec::new();
    files4.push(
        WeightFile {
            repo: "leejet/Qwen-Image-2.1-GGUF",
            path: "qwen_image_2.1-Q4_K.gguf",
            size: 4_197_494_816,
            role: Role::Diffusion,
        },
    );
    files4.push(
        WeightFile {
            repo: "Comfy-Org/Qwen-Image-2.1",
            path: "vae/qwen_image_2.1_vae_bf16.safetensors",
            size: 675_509_688,
            role: Role::Vae,
        },
    );
    files4.push(
        WeightFile {
            repo: "Qwen/Qwen3-VL-8B-Instruct-GGUF",
            path: "Qwen3VL-8B-Instruct-Q4_K_M.gguf",
            size: 5_027_784_800,
            role: Role::Llm,
        },
    );
    files4.push(
        WeightFile {
            repo: "Qwen/Qwen3-VL-8B-Instruct-GGUF",
            path: "mmproj-Qwen3VL-8B-Instruct-Q8_0.gguf",
            size: 752_289_728,
            role: Role::LlmVision,
        },
    );
    assert(weight_views(files4@) =~= model_list()[4].files);
    v.push(
        ImageModel {
            name: "Qwen-Image 2.1",
            note: "2026, the newest of these. An order of magnitude slower than SD 1.5 on a CPU, and the largest download — meant for a GPU build.",
            files: files4,
            steps: 20,
            cfg_tenths: 60,
            flash_attn: true,
            sampler: 0,
            native: 1024,
            min_size: 512,
            max_size: 1536,
            vram: 227_430_000,
            reference: true,
            transparency: true,
            preview: (3, 4),
        },
    );
    let mut files5: Vec<WeightFile> = Vec::new();
    files5.push(
        WeightFile {
            repo: "leejet/Qwen-Image-2.1-GGUF",
            path: "qwen_image_2.1-Q2_K.gguf",
            size: 2_561_716_256,
            role: Role::Diffusion,
        },
    );
    files5.push(
        WeightFile {
            repo: "Comfy-Org/Qwen-Image-2.1",
            path: "vae/qwen_image_2.1_vae_bf16.safetensors",
            size: 675_509_688,
            role: Role::Vae,
        },
    );
    files5.push(
        WeightFile {
            repo: "Qwen/Qwen3-VL-8B-Instruct-GGUF",
            path: "Qwen3VL-8B-Instruct-Q4_K_M.gguf",
            size: 5_027_784_800,
            role: Role::Llm,
        },
    );
    files5.push(
        WeightFile {
            repo: "Qwen/Qwen3-VL-8B-Instruct-GGUF",
            path: "mmproj-Qwen3VL-8B-Instruct-Q8_0.gguf",
            size: 752_289_728,
            role: Role::LlmVision,
        },
    );
    assert(weight_views(files5@) =~= model_list()[5].files);
    v.push(
        ImageModel {
            name: "Qwen-Image 2.1 (Q2_K)",
            note: "the smallest Qwen, and the quantisation shows. Shares its VAE and text encoder with the larger one.",
            files: files5,
            steps: 20,
            cfg_tenths: 60,
            flash_attn: true,
            sampler: 0,
            native: 1024,
            min_size: 512,
            max_size: 1536,
            vram: 227_430_000,
            reference: true,
            transparency: true,
            preview: (3, 4),
        },
    );
    assert(image_model_views(v@) =~= model_list());
    v
}

/// The sizes on offer.
pub open spec fn size_list() -> Seq<(usize, usize)> {
    seq![(384, 384), (512, 512), (512, 768), (768, 512), (768, 768), (1024, 1024), (1024, 1536), (1536, 1024), (1536, 1536), (2048, 2048)]
}

/// The sizes on offer; every edge is a multiple of 64.
pub fn sizes() -> (r: Vec<(usize, usize)>)
    ensures
        r@ == size_list(),
{
    let v: Vec<(usize, usize)> = vec![(384, 384), (512, 512), (512, 768), (768, 512), (768, 768), (1024, 1024), (1024, 1536), (1536, 1024), (1536, 1536), (2048, 2048)];
    assert(v@ =~= size_list());
    v
}

/// Every size on offer lies on the grid.
pub proof fn law_sizes_lie_on_the_grid(i: int)
    requires
        0 <= i < size_list().len(),
    ensures
        size_list()[i].0 % 64 == 0,
        size_list()[i].1 % 64 == 0,
{
}

/// Every model on offer has limits that make sense: its range is not empty, its
/// ends lie on the grid, and the edge that it was trained at is in it.
pub proof fn law_model_limits(i: int)
    requires
        0 <= i < model_list().len(),
    ensures
        0 < model_list()[i].min_size <= model_list()[i].native <= model_list()[i].max_size,
        model_list()[i].min_size % 64 == 0,
        model_list()[i].max_size % 64 == 0,
        model_list()[i].max_size >= 256,
        model_list()[i].steps > 0,
{
}

pub open spec fn shorter(a: usize, b: usize) -> usize {
    if a <= b {
        a
    } else {
        b
    }
}

pub open spec fn longer(a: usize, b: usize) -> usize {
    if a >= b {
        a
    } else {
        b
    }
}

pub open spec fn size_words(width: usize, height: usize) -> Seq<char> {
    decimal(width as nat) + " × "@ + decimal(height as nat)
}

/// How a size reads for a model.
pub open spec fn size_note(m: ImageModelView, width: usize, height: usize) -> Seq<char> {
    if shorter(width, height) < m.min_size {
        size_words(width, height) + " — too small for this model"@
    } else if longer(width, height) > m.max_size {
        size_words(width, height) + " — beyond this model's range"@
    } else if width == m.native && height == m.native {
        size_words(width, height) + " — native"@
    } else {
        size_words(width, height)
    }
}

fn write_size(width: usize, height: usize) -> (r: String)
    ensures
        r@ == size_words(width, height),
{
    let mut r: String = decimal_text(width as u128);
    r.append(" × ");
    r.append(decimal_text(height as u128).as_str());
    r
}

/// How a size reads for a model: its own resolution, one that it copes with, or
/// one that it does not.
pub fn size_label(spec: &ImageModel, width: usize, height: usize) -> (r: String)
    ensures
        r@ == size_note(spec@, width, height),
{
    let mut r: String = write_size(width, height);
    let short: usize = if width <= height {
        width
    } else {
        height
    };
    let long: usize = if width >= height {
        width
    } else {
        height
    };
    if short < spec.min_size {
        r.append(" — too small for this model");
    } else if long > spec.max_size {
        r.append(" — beyond this model's range");
    } else if width == spec.native && height == spec.native {
        r.append(" — native");
    }
    r
}

// ---------------------------------------------------------------------------
// Weights

/// The name under which a weight file is stored.
pub fn local_name(file: &WeightFile) -> (r: String)
    ensures
        r@ == stored_name(file.path@),
{
    store_as(file.path)
}

/// The first file of a role.
pub open spec fn file_of(files: Seq<WeightView>, role: Role, n: int) -> Option<WeightView>
    decreases files.len() - n,
{
    if n < 0 || n >= files.len() {
        None
    } else if files[n].role == role {
        Some(files[n])
    } else {
        file_of(files, role, n + 1)
    }
}

/// The bytes of the files that `counted` picks, among the first `n`.
pub open spec fn bytes_of(files: Seq<WeightView>, counted: Seq<bool>, n: int) -> nat
    decreases n,
{
    if n <= 0 {
        0
    } else {
        bytes_of(files, counted, n - 1) + if counted[n - 1] {
            files[n - 1].size as nat
        } else {
            0
        }
    }
}

/// Which files an ordinary prompt needs: all but the vision weights.
pub open spec fn ordinary(files: Seq<WeightView>) -> Seq<bool> {
    Seq::new(files.len(), |i: int| files[i].role != Role::LlmVision)
}

/// Which of the files that an ordinary prompt needs are not on disk.
pub open spec fn missing(files: Seq<WeightView>, present: Seq<bool>) -> Seq<bool> {
    Seq::new(files.len(), |i: int| files[i].role != Role::LlmVision && !present[i])
}

/// Which of the vision weights are not on disk.
pub open spec fn missing_vision(files: Seq<WeightView>, present: Seq<bool>) -> Seq<bool> {
    Seq::new(files.len(), |i: int| files[i].role == Role::LlmVision && !present[i])
}

/// Which files a generation has to fetch.
pub open spec fn to_fetch(files: Seq<WeightView>, present: Seq<bool>, vision: bool) -> Seq<bool> {
    Seq::new(files.len(), |i: int| (files[i].role != Role::LlmVision || vision) && !present[i])
}

fn sum_sizes(files: &Vec<WeightFile>, counted: &Vec<bool>) -> (r: u64)
    requires
        counted.len() == files.len(),
        bytes_of(weight_views(files@), counted@, files.len() as int) <= u64::MAX,
    ensures
        r == bytes_of(weight_views(files@), counted@, files.len() as int),
{
    let ghost all = weight_views(files@);
    let mut sum: u64 = 0;
    let mut i: usize = 0;
    while i < files.len()
        invariant
            i <= files.len(),
            counted.len() == files.len(),
            all == weight_views(files@),
            bytes_of(all, counted@, files.len() as int) <= u64::MAX,
            sum == bytes_of(all, counted@, i as int),
        decreases files.len() - i,
    {
        proof {
            lemma_bytes_grow(all, counted@, i + 1, files.len() as int);
            assert(all[i as int].size == files@[i as int].size);
        }
        if counted[i] {
            sum = sum + files[i].size;
        }
        i += 1;
    }
    sum
}

proof fn lemma_bytes_grow(files: Seq<WeightView>, counted: Seq<bool>, n: int, m: int)
    requires
        0 <= n <= m,
    ensures
        bytes_of(files, counted, n) <= bytes_of(files, counted, m),
    decreases m,
{
    if n < m {
        lemma_bytes_grow(files, counted, n, m - 1);
    }
}

fn choose_files(files: &Vec<WeightFile>, present: &Vec<bool>, vision: bool, other: bool) -> (r: Vec<
    bool,
>)
    requires
        present.len() == files.len(),
    ensures
        r@ == Seq::new(
            files@.len(),
            |i: int|
                !present@[i] && if files@[i].role == Role::LlmVision {
                    vision
                } else {
                    other
                },
        ),
{
    let mut out: Vec<bool> = Vec::new();
    let mut i: usize = 0;
    while i < files.len()
        invariant
            i <= files.len(),
            present.len() == files.len(),
            out@ == Seq::new(
                i as nat,
                |k: int|
                    !present@[k] && if files@[k].role == Role::LlmVision {
                        vision
                    } else {
                        other
                    },
            ),
        decreases files.len() - i,
    {
        let wanted = if files[i].role == Role::LlmVision {
            vision
        } else {
            other
        };
        let ghost before = out@;
        out.push(!present[i] && wanted);
        assert(out@ =~= Seq::new(
            (i + 1) as nat,
            |k: int|
                !present@[k] && if files@[k].role == Role::LlmVision {
                    vision
                } else {
                    other
                },
        ));
        i += 1;
    }
    out
}

fn nothing_present(n: usize) -> (r: Vec<bool>)
    ensures
        r@ == Seq::new(n as nat, |i: int| false),
{
    let mut v: Vec<bool> = Vec::new();
    let mut i: usize = 0;
    while i < n
        invariant
            i <= n,
            v@ == Seq::new(i as nat, |k: int| false),
        decreases n - i,
    {
        v.push(false);
        assert(v@ =~= Seq::new((i + 1) as nat, |k: int| false));
        i += 1;
    }
    v
}

impl ImageModel {
    /// The name under which the file that plays a role is stored, if any does.
    pub fn path_for(&self, role: Role) -> (r: Option<String>)
        ensures
            match r {
                Some(t) => file_of(self@.files, role, 0) matches Some(f) && t@ == stored_name(
                    f.path,
                ),
                None => file_of(self@.files, role, 0) is None,
            },
    {
        let ghost all = self@.files;
        let mut i: usize = 0;
        while i < self.files.len()
            invariant
                i <= self.files.len(),
                all == weight_views(self.files@),
                all == self@.files,
                file_of(all, role, 0) == file_of(all, role, i as int),
            decreases self.files.len() - i,
        {
            assert(all[i as int] == self.files@[i as int]@);
            if self.files[i].role == role {
                return Some(local_name(&self.files[i]));
            }
            i += 1;
        }
        assert(all.len() == self.files@.len());
        None
    }

    /// Everything that the model needs on disk, whether or not it is there. The
    /// vision weights do not count: they are fetched when a reference image is
    /// first used.
    pub fn total_bytes(&self) -> (r: u64)
        requires
            bytes_of(self@.files, ordinary(self@.files), self@.files.len() as int) <= u64::MAX,
        ensures
            r == bytes_of(self@.files, ordinary(self@.files), self@.files.len() as int),
    {
        let none = nothing_present(self.files.len());
        let counted = choose_files(&self.files, &none, false, true);
        assert(counted@ =~= ordinary(self@.files));
        sum_sizes(&self.files, &counted)
    }

    /// Bytes still to fetch before the model can run.
    pub fn missing_bytes(&self, present: &Vec<bool>) -> (r: u64)
        requires
            present.len() == self.files.len(),
            bytes_of(self@.files, missing(self@.files, present@), self@.files.len() as int)
                <= u64::MAX,
        ensures
            r == bytes_of(
                self@.files,
                missing(self@.files, present@),
                self@.files.len() as int,
            ),
    {
        let counted = choose_files(&self.files, present, false, true);
        assert(counted@ =~= missing(self@.files, present@));
        sum_sizes(&self.files, &counted)
    }

    /// Bytes still to fetch before the model can take a reference image.
    pub fn missing_vision_bytes(&self, present: &Vec<bool>) -> (r: u64)
        requires
            present.len() == self.files.len(),
            bytes_of(
                self@.files,
                missing_vision(self@.files, present@),
                self@.files.len() as int,
            ) <= u64::MAX,
        ensures
            r == bytes_of(
                self@.files,
                missing_vision(self@.files, present@),
                self@.files.len() as int,
            ),
    {
        let counted = choose_files(&self.files, present, true, false);
        assert(counted@ =~= missing_vision(self@.files, present@));
        sum_sizes(&self.files, &counted)
    }

    /// Which files to fetch before a generation; the vision weights only where a
    /// reference image is used.
    pub fn fetch_weights(&self, present: &Vec<bool>, vision: bool) -> (r: Vec<bool>)
        requires
            present.len() == self.files.len(),
        ensures
            r@ == to_fetch(self@.files, present@, vision),
    {
        let r = choose_files(&self.files, present, vision, true);
        assert(r@ =~= to_fetch(self@.files, present@, vision));
        r
    }
}

/// What is missing, and what is missing for reference images, is together all
/// that a generation with a reference image fetches.
pub proof fn law_fetching_covers_what_is_missing(files: Seq<WeightView>, present: Seq<bool>, n: int)
    requires
        0 <= n <= files.len(),
    ensures
        bytes_of(files, to_fetch(files, present, false), n) == bytes_of(
            files,
            missing(files, present),
            n,
        ),
        bytes_of(files, to_fetch(files, present, true), n) == bytes_of(
            files,
            missing(files, present),
            n,
        ) + bytes_of(files, missing_vision(files, present), n),
        bytes_of(files, missing(files, present), n) <= bytes_of(files, ordinary(files), n),
    decreases n,
{
    if n > 0 {
        law_fetching_covers_what_is_missing(files, present, n - 1);
    }
}

pub open spec fn download_words(name: Seq<char>, size: u64) -> Seq<char> {
    "downloading "@ + name + " ("@ + size_text(size as nat, 1) + ")"@
}

/// The note that a download starts.
pub fn download_note(name: &str, size: u64) -> (r: String)
    ensures
        r@ == download_words(name@, size),
{
    let mut r: String = "downloading ".to_owned();
    r.append(name);
    r.append(" (");
    r.append(fmt_bytes(size).as_str());
    r.append(")");
    r
}

/// The note of how far a download is.
pub fn progress_note(name: &str, bytes: u64, total: u64) -> (r: String)
    ensures
        r@ == "downloading "@ + name@ + " — "@ + size_text(bytes as nat, 1) + " of "@ + size_text(
            total as nat,
            1,
        ),
{
    let mut r: String = "downloading ".to_owned();
    r.append(name);
    r.append(" — ");
    r.append(fmt_bytes(bytes).as_str());
    r.append(" of ");
    r.append(fmt_bytes(total).as_str());
    r
}

// ---------------------------------------------------------------------------
// Device memory

/// Device memory that has to be resident whatever runs.
pub const RESIDENT: u64 = 536870912;

/// Device memory of the compute buffer: that at 512 by 512, scaled by the
/// number of pixels, in binary floating point.
pub open spec fn buffer_size(vram: u64, width: usize, height: usize) -> nat {
    double_of(double_of(vram as nat) * double_of(width as nat * height as nat)) / 262144
}

impl ImageModel {
    /// Device memory that one generation wants, in bytes.
    pub fn device_memory_needed(&self, width: usize, height: usize) -> (r: u64)
        requires
            width * height <= usize::MAX,
            RESIDENT + buffer_size(self.vram, width, height) <= u64::MAX,
        ensures
            r == RESIDENT + buffer_size(self.vram, width, height),
    {
        let area: usize = width * height;
        let a: u128 = round_to_double(self.vram as u128);
        let b: u128 = round_to_double(area as u128);
        proof {
            lemma_double_is_half_at_least((a * b) as nat);
            assert(double_of((a * b) as nat) < 262144 * 0x1_0000_0000_0000_0000) by {
                assert(buffer_size(self.vram, width, height) <= u64::MAX);
            }
        }
        let c: u128 = round_to_double(a * b);
        RESIDENT + (c / 262144) as u64
    }
}

pub open spec fn shortfall_text(g: Gpu, need: u64) -> Seq<char> {
    g.name@ + " has "@ + size_text(g.vram_free as nat, 1) + " free of "@ + size_text(
        g.vram_total as nat,
        1,
    ) + ", and this needs about "@ + size_text(need as nat, 1)
        + ". Running on the CPU instead: slower, but it will not produce a corrupted image."@
}

/// Whether a generation would ask the GPU for more memory than it has free, in
/// words. Such a generation runs on the processor: a short GPU does not
/// reliably fail.
pub fn gpu_shortfall(gpu: &Option<Gpu>, need: u64) -> (r: Option<String>)
    ensures
        match r {
            Some(t) => *gpu matches Some(g) && g.vram_free < need && t@ == shortfall_text(g, need),
            None => *gpu matches Some(g) ==> g.vram_free >= need,
        },
{
    match gpu {
        Some(g) => {
            if g.vram_free >= need {
                return None;
            }
            let mut t: String = g.name.clone();
            t.append(" has ");
            t.append(fmt_bytes(g.vram_free).as_str());
            t.append(" free of ");
            t.append(fmt_bytes(g.vram_total).as_str());
            t.append(", and this needs about ");
            t.append(fmt_bytes(need).as_str());
            t.append(
                ". Running on the CPU instead: slower, but it will not produce a corrupted image.",
            );
            Some(t)
        },
        None => None,
    }
}

// ---------------------------------------------------------------------------
// Sizes

/// A number held within bounds.
pub open spec fn clamped(n: int, low: int, high: int) -> int {
    if n < low {
        low
    } else if n > high {
        high
    } else {
        n
    }
}

/// An edge on the grid of 64 that the engine needs, within its limits.
pub open spec fn on_grid(n: int, low: int, high: int) -> int {
    clamped(n, low, high) / 64 * 64
}

fn to_grid(n: usize, low: usize, high: usize) -> (r: usize)
    requires
        low <= high,
    ensures
        r == on_grid(n as int, low as int, high as int),
{
    let c: usize = if n < low {
        low
    } else if n > high {
        high
    } else {
        n
    };
    c / 64 * 64
}

/// The size that is really generated for a requested one.
pub fn round_size(spec: &ImageModel, width: usize, height: usize) -> (r: (usize, usize))
    requires
        spec.max_size >= 256,
    ensures
        r.0 == on_grid(width as int, 256, spec.max_size as int),
        r.1 == on_grid(height as int, 256, spec.max_size as int),
{
    (to_grid(width, 256, spec.max_size), to_grid(height, 256, spec.max_size))
}

/// Whether the square root of `num / den` is at least half a step below `k`
/// steps of 64, so that it rounds to `k` steps or more.
pub open spec fn reaches(num: nat, den: nat, k: nat) -> bool {
    k == 0 || (64 * k - 32) * (64 * k - 32) * den <= num
}

/// How many steps of 64 the square root of `num / den` rounds to, but no more
/// than `most`.
pub open spec fn steps_of(num: nat, den: nat, most: nat) -> nat
    decreases most,
{
    if most == 0 || reaches(num, den, most) {
        most
    } else {
        steps_of(num, den, (most - 1) as nat)
    }
}

/// The edge whose square is `num / den`, on the grid and within the limits of a
/// model.
pub open spec fn snapped(num: nat, den: nat, low: usize, high: usize) -> int {
    let k = steps_of(num, den, high as nat / 64 + 1);
    on_grid(
        64 * (if k == 0 {
            1
        } else {
            k as int
        }),
        low as int,
        high as int,
    )
}

/// The size of a generation with a reference image: as many pixels as were asked
/// for, in the shape of the reference.
pub open spec fn fitted(
    width: usize,
    height: usize,
    ref_w: usize,
    ref_h: usize,
    low: usize,
    high: usize,
) -> (int, int) {
    if ref_w == 0 || ref_h == 0 {
        (width as int, height as int)
    } else {
        let budget = width as nat * height as nat;
        (
            snapped(budget * ref_w as nat, ref_h as nat, low, high),
            snapped(budget * ref_h as nat, ref_w as nat, low, high),
        )
    }
}

fn snap(num: u128, den: u128, low: usize, high: usize) -> (r: usize)
    requires
        low <= high,
        den > 0,
    ensures
        r == snapped(num as nat, den as nat, low, high),
{
    let most: usize = high / 64 + 1;
    let all: u128 = num / den;
    let mut k: usize = most;
    while k > 0
        invariant
            k <= most,
            most <= 0x400_0000_0000_0000,
            den > 0,
            all == num / den,
            steps_of(num as nat, den as nat, most as nat) == steps_of(
                num as nat,
                den as nat,
                k as nat,
            ),
        ensures
            k <= most,
            most <= 0x400_0000_0000_0000,
            steps_of(num as nat, den as nat, most as nat) == k,
        decreases k,
    {
        let edge: u128 = 64 * (k as u128) - 32;
        assert(0 <= edge * edge <= 0xffff_ffff_ffff_ffff * 0xffff_ffff_ffff_ffff)
            by (nonlinear_arith)
            requires
                0 <= edge <= 0xffff_ffff_ffff_ffff,
        ;
        let square: u128 = edge * edge;
        assert(square <= all <==> square * den <= num) by (nonlinear_arith)
            requires
                all == num / den,
                den > 0,
                square >= 0,
        ;
        if square <= all {
            break ;
        }
        k -= 1;
    }
    let n: usize = if k == 0 {
        64
    } else if k > high / 64 {
        high
    } else {
        64 * k
    };
    to_grid(n, low, high)
}

/// The size to use for a reference image: the number of pixels that the chosen
/// size stands for, in the reference's shape.
pub fn fit_to_reference(
    spec: &ImageModel,
    width: usize,
    height: usize,
    ref_w: usize,
    ref_h: usize,
) -> (r: (usize, usize))
    requires
        ref_w > 0 && ref_h > 0 ==> spec.min_size <= spec.max_size && width * height <= usize::MAX,
    ensures
        (r.0 as int, r.1 as int) == fitted(
            width,
            height,
            ref_w,
            ref_h,
            spec.min_size,
            spec.max_size,
        ),
{
    if ref_w == 0 || ref_h == 0 {
        return (width, height);
    }
    let budget: u128 = (width * height) as u128;
    assert(budget * ref_w <= 0xffff_ffff_ffff_ffff * 0xffff_ffff_ffff_ffff) by (nonlinear_arith)
        requires
            0 <= budget <= 0xffff_ffff_ffff_ffff,
            0 <= ref_w <= 0xffff_ffff_ffff_ffff,
    ;
    assert(budget * ref_h <= 0xffff_ffff_ffff_ffff * 0xffff_ffff_ffff_ffff) by (nonlinear_arith)
        requires
            0 <= budget <= 0xffff_ffff_ffff_ffff,
            0 <= ref_h <= 0xffff_ffff_ffff_ffff,
    ;
    (
        snap(budget * ref_w as u128, ref_h as u128, spec.min_size, spec.max_size),
        snap(budget * ref_h as u128, ref_w as u128, spec.min_size, spec.max_size),
    )
}

/// However extreme a reference is, both edges stay within the model's limits and
/// on the grid.
pub proof fn law_fitted_size_stays_in_range(
    width: usize,
    height: usize,
    ref_w: usize,
    ref_h: usize,
    low: usize,
    high: usize,
)
    requires
        ref_w > 0,
        ref_h > 0,
        low <= high,
        low % 64 == 0,
    ensures
        ({
            let f = fitted(width, height, ref_w, ref_h, low, high);
            &&& low <= f.0 <= high
            &&& low <= f.1 <= high
            &&& f.0 % 64 == 0
            &&& f.1 % 64 == 0
        }),
{
    let budget = width as nat * height as nat;
    lemma_snapped(budget * ref_w as nat, ref_h as nat, low, high);
    lemma_snapped(budget * ref_h as nat, ref_w as nat, low, high);
}

proof fn lemma_snapped(num: nat, den: nat, low: usize, high: usize)
    requires
        low <= high,
        low % 64 == 0,
    ensures
        low <= snapped(num, den, low, high) <= high,
        snapped(num, den, low, high) % 64 == 0,
{
    let k = steps_of(num, den, high as nat / 64 + 1);
    let n = 64 * (if k == 0 {
        1
    } else {
        k as int
    });
    let c = clamped(n, low as int, high as int);
    assert(low <= c <= high);
    assert(c / 64 * 64 <= c);
    assert(low <= c / 64 * 64);
}

proof fn lemma_reaches_less(num: nat, den: nat, k: nat)
    requires
        k > 0,
        reaches(num, den, k),
    ensures
        reaches(num, den, (k - 1) as nat),
{
    if k > 1 {
        let a = 64 * k - 32;
        let b = 64 * (k - 1) - 32;
        assert(b * b <= a * a) by (nonlinear_arith)
            requires
                0 <= b <= a,
        ;
        assert(b * b * den <= a * a * den) by (nonlinear_arith)
            requires
                b * b <= a * a,
                den >= 0,
        ;
    }
}

proof fn lemma_steps_monotone(n1: nat, d1: nat, n2: nat, d2: nat, most: nat)
    requires
        n1 <= n2,
        d2 <= d1,
    ensures
        steps_of(n1, d1, most) <= steps_of(n2, d2, most),
    decreases most,
{
    if most > 0 {
        lemma_steps_monotone(n1, d1, n2, d2, (most - 1) as nat);
        lemma_steps_at_most(n1, d1, (most - 1) as nat);
        if reaches(n1, d1, most) {
            let a = 64 * most - 32;
            assert(a * a >= 0) by (nonlinear_arith);
            assert(a * a * d2 <= a * a * d1) by (nonlinear_arith)
                requires
                    a * a >= 0,
                    d2 <= d1,
            ;
        }
    }
}

proof fn lemma_steps_at_most(num: nat, den: nat, most: nat)
    ensures
        steps_of(num, den, most) <= most,
    decreases most,
{
    if most > 0 {
        lemma_steps_at_most(num, den, (most - 1) as nat);
    }
}

/// The shape follows the reference: one that is no wider than high never gives a
/// picture that is wider than high, and the other way round.
pub proof fn law_fitted_shape_follows_reference(
    width: usize,
    height: usize,
    ref_w: usize,
    ref_h: usize,
    low: usize,
    high: usize,
)
    requires
        0 < ref_w <= ref_h,
        low <= high,
    ensures
        fitted(width, height, ref_w, ref_h, low, high).0 <= fitted(
            width,
            height,
            ref_w,
            ref_h,
            low,
            high,
        ).1,
        fitted(width, height, ref_h, ref_w, low, high).0 >= fitted(
            width,
            height,
            ref_h,
            ref_w,
            low,
            high,
        ).1,
{
    let b = width as nat * height as nat;
    assert(b * ref_w as nat <= b * ref_h as nat) by (nonlinear_arith)
        requires
            ref_w <= ref_h,
            b >= 0,
    ;
    lemma_steps_monotone(
        b * ref_w as nat,
        ref_h as nat,
        b * ref_h as nat,
        ref_w as nat,
        high as nat / 64 + 1,
    );
}

/// A square reference leaves a square size on the grid as it is.
pub proof fn law_square_reference_changes_nothing(n: usize, r: usize, low: usize, high: usize)
    requires
        r > 0,
        n > 0,
        n % 64 == 0,
        low <= n <= high,
    ensures
        fitted(n, n, r, r, low, high) == (n as int, n as int),
{
    let k = n as nat / 64;
    let num = n as nat * n as nat * r as nat;
    let den = r as nat;
    let most = high as nat / 64 + 1;
    let e = 64 * k - 32;
    assert(n as nat == 64 * k);
    assert(e * e <= (64 * k) * (64 * k)) by (nonlinear_arith)
        requires
            0 <= e <= 64 * k,
    ;
    assert(e * e * den <= num) by (nonlinear_arith)
        requires
            e * e <= (64 * k) * (64 * k),
            num == (64 * k) * (64 * k) * den,
            den >= 0,
    ;
    assert(reaches(num, den, k));
    let f = 64 * (k + 1) - 32;
    assert((64 * k) * (64 * k) < f * f) by (nonlinear_arith)
        requires
            0 <= 64 * k < f,
    ;
    assert(num < f * f * den) by (nonlinear_arith)
        requires
            (64 * k) * (64 * k) < f * f,
            num == (64 * k) * (64 * k) * den,
            den > 0,
    ;
    assert(!reaches(num, den, k + 1));
    lemma_steps_exact(num, den, k, most);
}

proof fn lemma_steps_exact(num: nat, den: nat, k: nat, most: nat)
    requires
        reaches(num, den, k),
        !reaches(num, den, k + 1),
        k <= most,
    ensures
        steps_of(num, den, most) == k,
    decreases most,
{
    if most > k {
        if reaches(num, den, most) {
            lemma_reaches_down(num, den, most, k + 1);
        }
        lemma_steps_exact(num, den, k, (most - 1) as nat);
    }
}

proof fn lemma_reaches_down(num: nat, den: nat, k: nat, j: nat)
    requires
        reaches(num, den, k),
        j <= k,
    ensures
        reaches(num, den, j),
    decreases k,
{
    if j < k {
        lemma_reaches_less(num, den, k);
        lemma_reaches_down(num, den, (k - 1) as nat, j);
    }
}

// ---------------------------------------------------------------------------
// Prompts and recipes

/// A text without the full stops at its end.
pub open spec fn without_stops(s: Seq<char>) -> Seq<char>
    decreases s.len(),
{
    if s.len() > 0 && s.last() == '.' {
        without_stops(s.drop_last())
    } else {
        s
    }
}

pub open spec fn transparent_text(prompt: Seq<char>) -> Seq<char> {
    "This is an RGBA image with transparency. "@ + without_stops(trimmed(prompt))
        + ". The image has alpha channel and the background is transparent."@
}

/// Asks for a transparent background, in the words that the model expects.
pub fn transparent_prompt(prompt: &str) -> (r: String)
    ensures
        r@ == transparent_text(prompt@),
{
    let t = trim_text(prompt);
    let v = chars_of(t.as_str());
    let mut e: usize = v.len();
    assert(v@.take(e as int) =~= v@);
    while e > 0 && v[e - 1] == '.'
        invariant
            e <= v.len(),
            without_stops(v@) == without_stops(v@.take(e as int)),
        decreases e,
    {
        assert(v@.take(e as int).drop_last() =~= v@.take(e - 1));
        e -= 1;
    }
    assert(v@.subrange(0, e as int) =~= v@.take(e as int));
    let mut r: String = "This is an RGBA image with transparency. ".to_owned();
    r.append(text_of(slice_subrange(v.as_slice(), 0, e)).as_str());
    r.append(". The image has alpha channel and the background is transparent.");
    r
}

/// The prompt as the model sees it.
pub fn image_prompt(prompt: &str, transparent: bool, spec: &ImageModel) -> (r: String)
    ensures
        r@ == if transparent && spec.transparency {
            transparent_text(prompt@)
        } else {
            prompt@
        },
{
    if transparent && spec.transparency {
        transparent_prompt(prompt)
    } else {
        prompt.to_owned()
    }
}

/// What produced an image, kept with it and written into the file.
#[derive(Clone, Debug)]
pub struct Recipe {
    pub model: String,
    pub prompt: String,
    pub steps: usize,
    /// The guidance in tenths.
    pub cfg_tenths: u32,
    pub seed: u64,
    pub width: usize,
    pub height: usize,
}

/// A number of tenths as it is written.
pub open spec fn tenths_text(n: u32) -> Seq<char> {
    if n % 10 == 0 {
        decimal((n / 10) as nat)
    } else {
        decimal((n / 10) as nat) + "."@ + decimal((n % 10) as nat)
    }
}

pub open spec fn recipe_text(r: Recipe) -> Seq<char> {
    trimmed(r.prompt@) + "\nSteps: "@ + decimal(r.steps as nat) + ", CFG scale: "@ + tenths_text(
        r.cfg_tenths,
    ) + ", Seed: "@ + decimal(r.seed as nat) + ", Size: "@ + decimal(r.width as nat) + "x"@
        + decimal(r.height as nat) + ", Model: "@ + r.model@
}

fn write_tenths(n: u32) -> (r: String)
    ensures
        r@ == tenths_text(n),
{
    let mut t: String = decimal_text((n / 10) as u128);
    if n % 10 != 0 {
        t.append(".");
        t.append(decimal_text((n % 10) as u128).as_str());
    }
    t
}

impl Recipe {
    /// The one-string form that the diffusion tools agreed on: the prompt, then
    /// the settings.
    pub fn parameters(&self) -> (r: String)
        ensures
            r@ == recipe_text(*self),
    {
        let mut t: String = trim_text(self.prompt.as_str());
        t.append("\nSteps: ");
        t.append(decimal_text(self.steps as u128).as_str());
        t.append(", CFG scale: ");
        t.append(write_tenths(self.cfg_tenths).as_str());
        t.append(", Seed: ");
        t.append(decimal_text(self.seed as u128).as_str());
        t.append(", Size: ");
        t.append(decimal_text(self.width as u128).as_str());
        t.append("x");
        t.append(decimal_text(self.height as u128).as_str());
        t.append(", Model: ");
        t.append(self.model.as_str());
        t
    }
}

// ---------------------------------------------------------------------------
// Files

/// A text note in a PNG file.
pub struct NoteView {
    pub key: Seq<char>,
    pub value: Seq<char>,
}

/// The bytes of a PNG file with three notes, or the words in which the encoder
/// refuses it.
pub uninterp spec fn png_file(
    width: u32,
    height: u32,
    rgba: bool,
    notes: Seq<NoteView>,
    pixels: Seq<u8>,
) -> Result<Seq<u8>, Seq<char>>;

/// `png::Encoder`: an eight-bit image with or without alpha and three text
/// notes. The bytes, or the refusal, depend on the arguments alone. The encoder
/// multiplies the length of a row by the height, so that has to fit.
#[verifier::external_body]
fn png_encode(
    width: u32,
    height: u32,
    rgba: bool,
    a: (&str, String),
    b: (&str, String),
    c: (&str, String),
    pixels: &[u8],
) -> (r: Result<Vec<u8>, String>)
    requires
        width * height * 4 <= usize::MAX,
    ensures
        match r {
            Ok(v) => png_file(
                width,
                height,
                rgba,
                seq![
                    NoteView { key: a.0@, value: a.1@ },
                    NoteView { key: b.0@, value: b.1@ },
                    NoteView { key: c.0@, value: c.1@ },
                ],
                pixels@,
            ) == Ok::<Seq<u8>, Seq<char>>(v@),
            Err(e) => png_file(
                width,
                height,
                rgba,
                seq![
                    NoteView { key: a.0@, value: a.1@ },
                    NoteView { key: b.0@, value: b.1@ },
                    NoteView { key: c.0@, value: c.1@ },
                ],
                pixels@,
            ) == Err::<Seq<u8>, Seq<char>>(e@),
        },
{
    let mut out = Vec::new();
    let mut encoder = png::Encoder::new(&mut out, width, height);
    encoder.set_color(if rgba { png::ColorType::Rgba } else { png::ColorType::Rgb });
    encoder.set_depth(png::BitDepth::Eight);
    let _ = encoder.add_text_chunk(a.0.to_string(), a.1);
    let _ = encoder.add_text_chunk(b.0.to_string(), b.1);
    let _ = encoder.add_text_chunk(c.0.to_string(), c.1);
    let written = encoder.write_header().and_then(|mut w| w.write_image_data(pixels));
    written.map_err(|e| e.to_string())?;
    Ok(out)
}

/// The notes that are written into a file.
pub open spec fn notes_of(r: Recipe) -> Seq<NoteView> {
    seq![
        NoteView { key: "parameters"@, value: recipe_text(r) },
        NoteView { key: "prompt"@, value: trimmed(r.prompt@) },
        NoteView { key: "Software"@, value: "offgrid"@ },
    ]
}

/// Why a picture cannot be written.
pub enum PngError {
    /// It does not have as many bytes as its size says.
    Size(String),
    /// The encoder refused it.
    Encoder(String),
}

/// Writes a picture as a PNG file with its recipe in it.
pub fn save_png(width: usize, height: usize, channels: usize, pixels: &[u8], recipe: &Recipe) -> (r:
    Result<Vec<u8>, PngError>)
    requires
        width * height * 4 <= usize::MAX,
        width * height * channels <= usize::MAX,
        width <= u32::MAX,
        height <= u32::MAX,
    ensures
        pixels@.len() != width * height * channels ==> (r matches Err(PngError::Size(t)) && t@
            == "image is "@ + decimal(pixels@.len()) + " bytes, expected "@ + decimal(
            (width * height * channels) as nat,
        )),
        pixels@.len() == width * height * channels ==> match png_file(
            width as u32,
            height as u32,
            channels == 4,
            notes_of(*recipe),
            pixels@,
        ) {
            Ok(bytes) => r matches Ok(v) && v@ == bytes,
            Err(e) => r matches Err(PngError::Encoder(t)) && t@ == e,
        },
{
    let expected: usize = width * height * channels;
    if pixels.len() != expected {
        let mut t: String = "image is ".to_owned();
        t.append(decimal_text(pixels.len() as u128).as_str());
        t.append(" bytes, expected ");
        t.append(decimal_text(expected as u128).as_str());
        return Err(PngError::Size(t));
    }
    let parameters = recipe.parameters();
    let prompt = trim_text(recipe.prompt.as_str());
    match png_encode(
        width as u32,
        height as u32,
        channels == 4,
        ("parameters", parameters),
        ("prompt", prompt),
        ("Software", "offgrid".to_owned()),
        pixels,
    ) {
        Ok(v) => Ok(v),
        Err(e) => Err(PngError::Encoder(e)),
    }
}

/// The longest side at which a reference image is kept.
pub const REFERENCE_MAX: u32 = 1024;

/// The most references that one generation takes.
pub const REFERENCE_LIMIT: usize = 4;

/// A reference image: eight-bit colours without alpha.
pub struct Reference {
    pub width: usize,
    pub height: usize,
    /// Three bytes for each pixel.
    pub pixels: Vec<u8>,
}

pub struct RgbView {
    pub width: nat,
    pub height: nat,
    pub pixels: Seq<u8>,
}

impl View for Reference {
    type V = RgbView;

    open spec fn view(&self) -> RgbView {
        RgbView { width: self.width as nat, height: self.height as nat, pixels: self.pixels@ }
    }
}

/// A picture with sixteen bits for each colour, without alpha.
pub struct DeepPicture {
    pub width: usize,
    pub height: usize,
    /// Three numbers for each pixel.
    pub pixels: Vec<u16>,
}

pub struct DeepView {
    pub width: nat,
    pub height: nat,
    pub pixels: Seq<u16>,
}

impl View for DeepPicture {
    type V = DeepView;

    open spec fn view(&self) -> DeepView {
        DeepView { width: self.width as nat, height: self.height as nat, pixels: self.pixels@ }
    }
}

/// A decoded file, in the depth that it was stored in.
pub enum Decoded {
    Eight(Reference),
    Sixteen(DeepPicture),
}

/// A picture scaled down to fit a square.
pub uninterp spec fn image_shrunk(picture: RgbView, bound: u32) -> RgbView;

/// A deep picture scaled down to fit a square.
pub uninterp spec fn deep_shrunk(picture: DeepView, bound: u32) -> DeepView;

/// Whether a picture has as many bytes as its size says.
pub open spec fn rgb_ok(r: RgbView) -> bool {
    r.pixels.len() == r.width * r.height * 3
}

/// Whether a deep picture has as many numbers as its size says.
pub open spec fn deep_ok(d: DeepView) -> bool {
    d.pixels.len() == d.width * d.height * 3
}

/// Whether a decoded file has a size that a file can have, and the pixels that
/// it says.
pub open spec fn decoded_ok(d: Decoded) -> bool {
    match d {
        Decoded::Eight(r) => rgb_ok(r@) && r@.width <= u32::MAX && r@.height <= u32::MAX,
        Decoded::Sixteen(p) => deep_ok(p@) && p@.width <= u32::MAX && p@.height <= u32::MAX,
    }
}

/// `image::DynamicImage::resize` with the Catmull-Rom filter, on an eight-bit
/// colour image: the picture keeps its shape and fits the bounds. What its
/// pixels are depends on the picture and the bound alone.
#[verifier::external_body]
fn shrink_rgb(r: Reference, bound: u32) -> (s: Reference)
    requires
        rgb_ok(r@),
        0 < r@.width <= u32::MAX,
        0 < r@.height <= u32::MAX,
        bound > 0,
    ensures
        s@ == image_shrunk(r@, bound),
        rgb_ok(s@),
        0 < s@.width <= bound,
        0 < s@.height <= bound,
{
    let picture = image::RgbImage::from_raw(r.width as u32, r.height as u32, r.pixels);
    let whole = image::DynamicImage::ImageRgb8(picture.unwrap_or_default());
    let small = whole.resize(bound, bound, image::imageops::CatmullRom).into_rgb8();
    Reference {
        width: small.width() as usize,
        height: small.height() as usize,
        pixels: small.into_raw(),
    }
}

/// `image::DynamicImage::resize` with the Catmull-Rom filter, on a sixteen-bit
/// colour image: the picture keeps its shape and fits the bounds. What its
/// pixels are depends on the picture and the bound alone.
#[verifier::external_body]
fn shrink_deep(d: DeepPicture, bound: u32) -> (s: DeepPicture)
    requires
        deep_ok(d@),
        0 < d@.width <= u32::MAX,
        0 < d@.height <= u32::MAX,
        bound > 0,
    ensures
        s@ == deep_shrunk(d@, bound),
        deep_ok(s@),
        0 < s@.width <= bound,
        0 < s@.height <= bound,
{
    let picture = image::ImageBuffer::from_raw(d.width as u32, d.height as u32, d.pixels);
    let whole = image::DynamicImage::ImageRgb16(picture.unwrap_or_default());
    let small = whole.resize(bound, bound, image::imageops::CatmullRom).into_rgb16();
    DeepPicture {
        width: small.width() as usize,
        height: small.height() as usize,
        pixels: small.into_raw(),
    }
}

/// A deep picture with eight bits for each colour, to the nearest.
pub open spec fn narrowed(d: DeepView) -> RgbView {
    RgbView {
        width: d.width,
        height: d.height,
        pixels: d.pixels.map_values(|c: u16| ((c + 128) / 257) as u8),
    }
}

/// `image::DynamicImage::into_rgb8` on a sixteen-bit colour image: each colour is
/// brought to eight bits by itself, to the nearest.
#[verifier::external_body]
fn narrow(d: DeepPicture) -> (s: Reference)
    requires
        deep_ok(d@),
        d@.width <= u32::MAX,
        d@.height <= u32::MAX,
    ensures
        s@ == narrowed(d@),
{
    let picture = image::ImageBuffer::from_raw(d.width as u32, d.height as u32, d.pixels);
    let small = image::DynamicImage::ImageRgb16(picture.unwrap_or_default()).into_rgb8();
    Reference {
        width: small.width() as usize,
        height: small.height() as usize,
        pixels: small.into_raw(),
    }
}

/// Whether a picture is scaled down.
pub open spec fn too_large(width: nat, height: nat) -> bool {
    width > 0 && height > 0 && (width > REFERENCE_MAX || height > REFERENCE_MAX)
}

/// A decoded file as a reference: scaled down in its own depth where its longer
/// side is longer than the limit, then with eight bits for each colour.
pub open spec fn referred(d: Decoded) -> RgbView {
    match d {
        Decoded::Eight(r) => if too_large(r@.width, r@.height) {
            image_shrunk(r@, REFERENCE_MAX)
        } else {
            r@
        },
        Decoded::Sixteen(p) => narrowed(
            if too_large(p@.width, p@.height) {
                deep_shrunk(p@, REFERENCE_MAX)
            } else {
                p@
            },
        ),
    }
}

/// A decoded file as a reference: scaled down where its longer side is longer
/// than the limit.
pub fn load_reference(d: Decoded) -> (s: Reference)
    requires
        decoded_ok(d),
    ensures
        s@ == referred(d),
        rgb_ok(s@),
        s@.width > 0 && s@.height > 0 ==> s@.width <= REFERENCE_MAX && s@.height <= REFERENCE_MAX,
{
    let most: usize = REFERENCE_MAX as usize;
    match d {
        Decoded::Eight(r) => {
            if r.width > 0 && r.height > 0 && (r.width > most || r.height > most) {
                shrink_rgb(r, REFERENCE_MAX)
            } else {
                r
            }
        },
        Decoded::Sixteen(p) => {
            if p.width > 0 && p.height > 0 && (p.width > most || p.height > most) {
                narrow(shrink_deep(p, REFERENCE_MAX))
            } else {
                narrow(p)
            }
        },
    }
}

// ---------------------------------------------------------------------------
// The worker

/// What the worker is asked for.
pub enum ImageCmd {
    /// Download a model's weights.
    Fetch { model: usize },
    /// Fetch the weights if needed, then generate.
    Generate {
        model: usize,
        /// Keep the weights in memory and stream them to the accelerator.
        offload: bool,
        prompt: String,
        steps: usize,
        seed: u64,
        width: usize,
        height: usize,
        /// Pictures to compose from.
        references: Vec<Reference>,
    },
}

/// What the worker reports.
pub enum ImageEvent {
    Note(String),
    /// The image part-way through.
    Preview { width: usize, height: usize, channels: usize, pixels: Vec<u8> },
    Step { done: usize, total: usize },
    Image { width: usize, height: usize, channels: usize, pixels: Vec<u8> },
    Done,
    Error(String),
}

/// What the loaded model was loaded as; another request means another load.
#[derive(Clone, Copy, PartialEq, Eq, Structural, Debug)]
pub struct LoadKey {
    pub index: usize,
    pub offload: bool,
    pub vision: bool,
    pub cpu_only: bool,
}

/// Whether a model has to be loaded anew.
pub fn needs_load(loaded: Option<LoadKey>, wanted: LoadKey) -> (r: bool)
    ensures
        r == (loaded != Some(wanted)),
{
    match loaded {
        Some(k) => k != wanted,
        None => true,
    }
}

/// The note that a model is being loaded.
pub fn load_note(name: &str, cpu_only: bool) -> (r: String)
    ensures
        r@ == "loading "@ + name@ + (if cpu_only {
            " on the CPU…"@
        } else {
            "…"@
        }),
{
    let mut r: String = "loading ".to_owned();
    r.append(name);
    if cpu_only {
        r.append(" on the CPU…");
    } else {
        r.append("…");
    }
    r
}

/// Why a model could not be loaded.
pub fn load_error(name: &str, why: Option<String>) -> (r: String)
    ensures
        r@ == match why {
            Some(w) => "could not load "@ + name@ + ": "@ + w@,
            None => "could not load "@ + name@,
        },
{
    let mut r: String = "could not load ".to_owned();
    r.append(name);
    match why {
        Some(w) => {
            r.append(": ");
            r.append(w.as_str());
        },
        None => {},
    }
    r
}

/// Why a generation failed.
pub fn generate_error(why: Option<String>) -> (r: String)
    ensures
        r@ == match why {
            Some(w) => "generation failed: "@ + w@,
            None => "generation failed, and sd.cpp said nothing about why"@,
        },
{
    match why {
        Some(w) => {
            let mut r: String = "generation failed: ".to_owned();
            r.append(w.as_str());
            r
        },
        None => "generation failed, and sd.cpp said nothing about why".to_owned(),
    }
}

/// The size of a generation, and the note where a reference decides its shape.
pub fn generation_size(
    spec: &ImageModel,
    width: usize,
    height: usize,
    reference: Option<(usize, usize)>,
) -> (r: ((usize, usize), Option<String>))
    requires
        reference matches Some(d) && d.0 > 0 && d.1 > 0 ==> spec.min_size <= spec.max_size && width
            * height <= usize::MAX,
    ensures
        ({
            let size = match reference {
                Some(d) => fitted(width, height, d.0, d.1, spec.min_size, spec.max_size),
                None => (width as int, height as int),
            };
            &&& (r.0.0 as int, r.0.1 as int) == size
            &&& match r.1 {
                Some(t) => size != (width as int, height as int) && t@
                    == "matching the reference's shape: "@ + size_words(r.0.0, r.0.1),
                None => size == (width as int, height as int),
            }
        }),
{
    match reference {
        Some(d) => {
            let size = fit_to_reference(spec, width, height, d.0, d.1);
            if size.0 != width || size.1 != height {
                let mut t: String = "matching the reference's shape: ".to_owned();
                t.append(write_size(size.0, size.1).as_str());
                (size, Some(t))
            } else {
                (size, None)
            }
        },
        None => ((width, height), None),
    }
}

/// The step that the engine's progress stands for. It reports loading and
/// decoding the same way, but with other totals than the steps asked for.
pub fn step_event(step: i32, steps: i32, asked: usize) -> (r: Option<(usize, usize)>)
    ensures
        ({
            let total = if steps < 0 {
                0int
            } else {
                steps as int
            };
            match r {
                Some(p) => total == asked && p.1 == total && p.0 == if step < 0 {
                    0int
                } else {
                    step as int
                },
                None => total != asked,
            }
        }),
{
    let total: usize = if steps < 0 {
        0
    } else {
        steps as usize
    };
    if total != asked {
        return None;
    }
    let done: usize = if step < 0 {
        0
    } else {
        step as usize
    };
    Some((done, total))
}

/// The size of a picture that the engine hands over; none where it has none.
/// Pictures have three channels, or four.
pub fn frame_size(width: i32, height: i32, channels: i32) -> (r: Option<(usize, usize, usize)>)
    ensures
        match r {
            Some(s) => width > 0 && height > 0 && s.0 == width && s.1 == height && s.2 == (if 0
                <= channels <= 3 {
                3int
            } else {
                4int
            }),
            None => width <= 0 || height <= 0,
        },
{
    if width <= 0 || height <= 0 {
        return None;
    }
    let n: usize = if 0 <= channels && channels <= 3 {
        3
    } else {
        4
    };
    Some((width as usize, height as usize, n))
}

/// How many lines of the engine's log are kept.
pub const LOG_TAIL_LINES: usize = 8;

/// The level below which the engine's log is noise.
pub const LOG_INFO: i32 = 2;

/// The log with one more line, and no more than are kept.
pub open spec fn logged(tail: Seq<Seq<char>>, level: i32, text: Seq<char>) -> Seq<Seq<char>> {
    if level < LOG_INFO || trimmed(text).len() == 0 {
        tail
    } else if tail.len() == LOG_TAIL_LINES {
        tail.skip(1).push(trimmed(text))
    } else {
        tail.push(trimmed(text))
    }
}

/// Keeps a line of the engine's log.
pub fn on_log(tail: &mut Vec<String>, level: i32, text: &str)
    ensures
        views(final(tail)@) == logged(views(old(tail)@), level, text@),
{
    if level < LOG_INFO || is_blank_text(text) {
        return ;
    }
    let ghost before = views(tail@);
    if tail.len() == LOG_TAIL_LINES {
        tail.remove(0);
        assert(views(tail@) =~= before.skip(1));
    }
    let ghost mid = views(tail@);
    let line = trim_text(text);
    tail.push(line);
    assert(views(tail@) =~= mid.push(line@));
}

/// The log never keeps more lines than it may.
pub proof fn law_log_is_bounded(tail: Seq<Seq<char>>, level: i32, text: Seq<char>)
    requires
        tail.len() <= LOG_TAIL_LINES,
    ensures
        logged(tail, level, text).len() <= LOG_TAIL_LINES,
{
}

/// Whether a line sounds like a failure.
pub open spec fn complains(line: Seq<char>) -> bool {
    let l = lowered(line);
    mentions(l, "fail"@) || mentions(l, "error"@) || mentions(l, "unsupported"@)
}

/// The last of the first `n` lines that sounds like a failure.
pub open spec fn last_complaint(lines: Seq<Seq<char>>, n: int) -> Option<Seq<char>>
    decreases n,
{
    if n <= 0 {
        None
    } else if complains(lines[n - 1]) {
        Some(lines[n - 1])
    } else {
        last_complaint(lines, n - 1)
    }
}

/// The line that says best what went wrong: the last that sounds like a failure,
/// or else the last.
pub open spec fn complaint_of(lines: Seq<Seq<char>>) -> Option<Seq<char>> {
    match last_complaint(lines, lines.len() as int) {
        Some(l) => Some(l),
        None => if lines.len() > 0 {
            Some(lines.last())
        } else {
            None
        },
    }
}

/// Takes the line that says best what went wrong, and forgets the log.
pub fn take_complaint(tail: &mut Vec<String>) -> (r: Option<String>)
    ensures
        final(tail)@.len() == 0,
        match r {
            Some(t) => complaint_of(views(old(tail)@)) == Some(t@),
            None => complaint_of(views(old(tail)@)) is None,
        },
{
    let ghost all = views(tail@);
    let mut found: Option<String> = None;
    let mut i: usize = tail.len();
    while i > 0 && found.is_none()
        invariant
            i <= tail.len(),
            all == views(tail@),
            match found {
                Some(t) => last_complaint(all, all.len() as int) == Some(t@),
                None => last_complaint(all, all.len() as int) == last_complaint(all, i as int),
            },
        decreases i,
    {
        assert(all[i - 1] == tail@[i - 1]@);
        let l = lower_text(tail[i - 1].as_str());
        if contains(l.as_str(), "fail") || contains(l.as_str(), "error") || contains(
            l.as_str(),
            "unsupported",
        ) {
            found = Some(tail[i - 1].clone());
        }
        i -= 1;
    }
    if found.is_none() && tail.len() > 0 {
        assert(all.last() == tail@.last()@);
        found = Some(tail[tail.len() - 1].clone());
    }
    tail.clear();
    found
}

/// How many threads a generation uses: as many as are asked for, where that is a
/// positive number, or one for every core.
pub fn image_threads(asked: Option<String>, cores: i32) -> (r: i32)
    ensures
        r == match asked {
            Some(t) => match signed_in(t@) {
                Some(n) => if 0 < n <= i32::MAX {
                    n
                } else {
                    cores as int
                },
                None => cores as int,
            },
            None => cores as int,
        },
{
    match asked {
        Some(t) => {
            let v = chars_of(t.as_str());
            match read_signed(v.as_slice()) {
                Some(n) => {
                    if 0 < n && n <= i32::MAX as i64 {
                        n as i32
                    } else {
                        cores
                    }
                },
                None => cores,
            }
        },
        None => cores,
    }
}

// ---------------------------------------------------------------------------
// Laws of images

/// A size is labelled by what it is to a model: too small, too large, its own, or
/// none of these.
pub proof fn law_labels_of_sizes(m: ImageModelView, w: usize, h: usize)
    ensures
        size_words(w, h) == decimal(w as nat) + " × "@ + decimal(h as nat),
        w < m.min_size || h < m.min_size ==> size_note(m, w, h) == size_words(w, h)
            + " — too small for this model"@,
        w >= m.min_size && h >= m.min_size && (w > m.max_size || h > m.max_size) ==> size_note(
            m,
            w,
            h,
        ) == size_words(w, h) + " — beyond this model's range"@,
        m.min_size <= w <= m.max_size && m.min_size <= h <= m.max_size && w == m.native && h
            == m.native ==> size_note(m, w, h) == size_words(w, h) + " — native"@,
        m.min_size <= w <= m.max_size && m.min_size <= h <= m.max_size && (w != m.native || h
            != m.native) ==> size_note(m, w, h) == size_words(w, h),
{
}

/// The file of a role is the first that has it; there is none only where no file
/// has it.
pub proof fn law_files_are_found_by_role(files: Seq<WeightView>, role: Role, n: int, k: int)
    requires
        0 <= n <= k < files.len(),
    ensures
        files[k].role == role ==> file_of(files, role, n) is Some,
        file_of(files, role, n) matches Some(f) ==> f.role == role && files.contains(f),
        files[n].role == role ==> file_of(files, role, n) == Some(files[n]),
    decreases files.len() - n,
{
    if files[n].role == role {
        assert(files.contains(files[n]));
    } else if n + 1 < files.len() {
        law_files_are_found_by_role(
            files,
            role,
            n + 1,
            if k > n {
                k
            } else {
                n + 1
            },
        );
    }
}

/// A file is fetched where it is not on disk and is needed; vision weights only
/// for a picture to start from. What is missing adds up, file by file.
pub proof fn law_missing_files_are_fetched(files: Seq<WeightView>, present: Seq<bool>, vision: bool, i: int)
    requires
        0 <= i < files.len(),
        present.len() == files.len(),
    ensures
        to_fetch(files, present, vision).len() == files.len(),
        present[i] ==> !to_fetch(files, present, vision)[i],
        !present[i] && files[i].role != Role::LlmVision ==> to_fetch(files, present, vision)[i],
        !present[i] && files[i].role == Role::LlmVision ==> to_fetch(files, present, vision)[i]
            == vision,
        missing(files, present)[i] <==> !present[i] && files[i].role != Role::LlmVision,
        missing_vision(files, present)[i] <==> !present[i] && files[i].role == Role::LlmVision,
        ordinary(files)[i] <==> files[i].role != Role::LlmVision,
        forall|c: Seq<bool>|
            c.len() == files.len() ==> #[trigger] bytes_of(files, c, i + 1) == bytes_of(files, c, i)
                + (if c[i] {
                files[i].size as nat
            } else {
                0nat
            }),
        forall|c: Seq<bool>| #[trigger] bytes_of(files, c, 0) == 0,
{
}

/// A generation at 512 by 512 takes what the model says, and in proportion at
/// other sizes.
pub proof fn law_memory_grows_with_the_pixels(vram: u64)
    requires
        vram < 1_000_000_000_000,
    ensures
        buffer_size(vram, 512, 512) == vram,
        buffer_size(vram, 1024, 512) == 2 * vram,
        buffer_size(vram, 1024, 1024) == 4 * vram,
{
    law_small_numbers_are_exact(vram as nat);
    law_small_numbers_are_exact(262_144);
    law_small_numbers_are_exact(524_288);
    law_small_numbers_are_exact(1_048_576);
    lemma_shifted(vram as nat, 18);
    lemma_shifted(vram as nat, 19);
    lemma_shifted(vram as nat, 20);
    assert(crate::single::two_to(18) == 262_144 && crate::single::two_to(19) == 524_288
        && crate::single::two_to(20) == 1_048_576) by {
        reveal_with_fuel(crate::single::two_to, 21);
    }
    assert(512 * 512 == 262_144 && 1024 * 512 == 524_288 && 1024 * 1024 == 1_048_576);
}

/// A number of few bits stays exact when it is doubled time and again.
proof fn lemma_shifted(n: nat, k: nat)
    requires
        n < crate::figures::UNIT,
    ensures
        double_of(n * crate::single::two_to(k)) == n * crate::single::two_to(k),
{
    crate::figures::lemma_doubled_exact(n, k);
}

/// An edge is brought within the limits and down to the grid of 64.
pub proof fn law_edges_on_the_grid(n: int, low: int, high: int)
    requires
        0 <= low <= high,
    ensures
        on_grid(n, low, high) % 64 == 0,
        low <= n <= high ==> on_grid(n, low, high) <= n < on_grid(n, low, high) + 64,
        n > high ==> on_grid(n, low, high) <= high < on_grid(n, low, high) + 64,
        n < low ==> on_grid(n, low, high) <= low < on_grid(n, low, high) + 64,
{
}

/// The edge that fits a reference is the nearest step of 64 to the one whose
/// square is asked for: half a step less would be too small, half a step more too
/// large.
pub proof fn law_fitted_edges_are_nearest(num: nat, den: nat, most: nat)
    ensures
        ({
            let k = steps_of(num, den, most);
            &&& k <= most
            &&& k > 0 ==> (64 * k - 32) * (64 * k - 32) * den <= num
            &&& k < most ==> (64 * k + 32) * (64 * k + 32) * den > num
        }),
    decreases most,
{
    if most > 0 && !reaches(num, den, most) {
        law_fitted_edges_are_nearest(num, den, (most - 1) as nat);
        let k = steps_of(num, den, (most - 1) as nat);
        if k == most - 1 {
            assert(64 * most - 32 == 64 * k + 32);
        }
    }
}

/// With a reference the edges are those whose product is what was asked for and
/// whose ratio is the reference's; without one the size stays.
pub proof fn law_fitting_keeps_the_pixels(w: usize, h: usize, rw: usize, rh: usize, low: usize, high: usize)
    ensures
        rw == 0 || rh == 0 ==> fitted(w, h, rw, rh, low, high) == (w as int, h as int),
        rw > 0 && rh > 0 ==> fitted(w, h, rw, rh, low, high).0 == fitted(h, w, rw, rh, low, high).0,
        rw > 0 && rh > 0 ==> fitted(w, h, rw, rh, low, high).0 == fitted(w, h, rh, rw, low, high).1,
{
    assert(w as nat * h as nat == h as nat * w as nat) by (nonlinear_arith);
}

/// Asking for transparency keeps the prompt, between the words that the model
/// expects.
pub proof fn law_transparency_keeps_the_prompt(prompt: Seq<char>)
    requires
        trimmed(prompt) == prompt,
        prompt.len() > 0,
        prompt.last() != '.',
    ensures
        transparent_text(prompt) == "This is an RGBA image with transparency. "@ + prompt
            + ". The image has alpha channel and the background is transparent."@,
        without_stops(prompt) == prompt,
        without_stops(prompt.push('.')) == prompt,
{
    assert(prompt.push('.').drop_last() =~= prompt);
}

/// The recipe of a picture names everything that made it.
pub proof fn law_recipes_name_everything(r: Recipe, whole: u32, tenth: u32)
    requires
        tenth < 10,
        whole < 1_000_000,
    ensures
        recipe_text(r) == trimmed(r.prompt@) + "\nSteps: "@ + decimal(r.steps as nat)
            + ", CFG scale: "@ + tenths_text(r.cfg_tenths) + ", Seed: "@ + decimal(r.seed as nat)
            + ", Size: "@ + decimal(r.width as nat) + "x"@ + decimal(r.height as nat)
            + ", Model: "@ + r.model@,
        notes_of(r).len() == 3,
        notes_of(r)[0].key == "parameters"@ && notes_of(r)[0].value == recipe_text(r),
        notes_of(r)[1].key == "prompt"@ && notes_of(r)[1].value == trimmed(r.prompt@),
        notes_of(r)[2].key == "Software"@ && notes_of(r)[2].value == "offgrid"@,
        tenth == 0 ==> tenths_text((whole * 10) as u32) == decimal(whole as nat),
        tenth > 0 ==> tenths_text((whole * 10 + tenth) as u32) == decimal(whole as nat) + "."@
            + decimal(tenth as nat),
{
}

/// Sixteen bits are brought to the nearest of eight.
pub proof fn law_colours_are_brought_to_the_nearest(d: DeepView, i: int)
    requires
        0 <= i < d.pixels.len(),
    ensures
        narrowed(d).width == d.width && narrowed(d).height == d.height,
        narrowed(d).pixels.len() == d.pixels.len(),
        257 * narrowed(d).pixels[i] <= d.pixels[i] + 128,
        d.pixels[i] <= 257 * narrowed(d).pixels[i] + 128,
{
    let c = d.pixels[i];
    let q = (c + 128) / 257;
    assert(narrowed(d).pixels[i] == q as u8);
    assert(0 <= q <= 255);
    assert(257 * q <= c + 128 && c + 128 < 257 * q + 257);
}

/// A picture is scaled down where one of its sides is longer than 1024, and used as
/// it is where none is.
pub proof fn law_large_references_are_scaled(r: Reference, p: DeepPicture)
    ensures
        too_large(r@.width, r@.height) <==> r@.width > 0 && r@.height > 0 && (r@.width > 1024
            || r@.height > 1024),
        r@.width <= 1024 && r@.height <= 1024 ==> referred(Decoded::Eight(r)) == r@,
        p@.width <= 1024 && p@.height <= 1024 ==> referred(Decoded::Sixteen(p)) == narrowed(p@),
        r@.width > 1024 && r@.height > 0 ==> referred(Decoded::Eight(r)) == image_shrunk(r@, 1024),
        p@.width > 1024 && p@.height > 0 ==> referred(Decoded::Sixteen(p)) == narrowed(
            deep_shrunk(p@, 1024),
        ),
{
}

/// What the engine says is kept, trimmed and in its order, the oldest falling off;
/// what it says below the level of notes, and blanks, are not.
pub proof fn law_log_keeps_what_is_said(tail: Seq<Seq<char>>, level: i32, text: Seq<char>)
    requires
        tail.len() <= LOG_TAIL_LINES,
    ensures
        level >= LOG_INFO && trimmed(text).len() > 0 ==> logged(tail, level, text).len() > 0
            && logged(tail, level, text).last() == trimmed(text),
        level >= LOG_INFO && trimmed(text).len() > 0 && tail.len() < LOG_TAIL_LINES ==> logged(
            tail,
            level,
            text,
        ) == tail.push(trimmed(text)),
        level < LOG_INFO || trimmed(text).len() == 0 ==> logged(tail, level, text) == tail,
{
}

/// The line that says what went wrong is the last that speaks of a failure, in any
/// case; where none does, the last.
pub proof fn law_complaints_are_found(lines: Seq<Seq<char>>, n: int, k: int)
    requires
        0 <= k < n <= lines.len(),
    ensures
        complains(lines[k]) ==> last_complaint(lines, n) is Some,
        last_complaint(lines, n) matches Some(l) ==> complains(l),
        complains(lines[n - 1]) ==> last_complaint(lines, n) == Some(lines[n - 1]),
        complaint_of(lines) is Some,
        (forall|i: int| 0 <= i < lines.len() ==> !complains(#[trigger] lines[i])) ==> complaint_of(
            lines,
        ) == Some(lines.last()),
        complains(lines[k]) <==> mentions(lowered(lines[k]), "fail"@) || mentions(
            lowered(lines[k]),
            "error"@,
        ) || mentions(lowered(lines[k]), "unsupported"@),
    decreases n,
{
    if n > 1 && !complains(lines[n - 1]) {
        law_complaints_are_found(
            lines,
            n - 1,
            if k < n - 1 {
                k
            } else {
                n - 2
            },
        );
    }
    lemma_complaint(lines, lines.len() as int);
    lemma_complaint(lines, n);
}

proof fn lemma_complaint(lines: Seq<Seq<char>>, n: int)
    requires
        0 <= n <= lines.len(),
    ensures
        last_complaint(lines, n) is Some ==> exists|i: int|
            0 <= i < n && complains(#[trigger] lines[i]) && last_complaint(lines, n) == Some(
                lines[i],
            ),
    decreases n,
{
    if n > 0 && !complains(lines[n - 1]) {
        lemma_complaint(lines, n - 1);
    } else if n > 0 {
        assert(complains(lines[n - 1]));
    }
}

/// What is said of models, files and pictures is said of what they hold.
pub proof fn law_image_models_are_what_they_hold(
    v: Seq<ImageModel>,
    f: Seq<WeightFile>,
    i: int,
    r: Reference,
    d: DeepPicture,
)
    ensures
        image_model_views(v).len() == v.len(),
        0 <= i < v.len() ==> ({
            let (a, b) = (image_model_views(v)[i], v[i]);
            &&& a.name == b.name@ && a.note == b.note@ && a.files == weight_views(b.files@)
            &&& a.steps == b.steps && a.cfg_tenths == b.cfg_tenths && a.native == b.native
                && a.min_size == b.min_size && a.max_size == b.max_size && a.vram == b.vram
            &&& a.reference == b.reference && a.transparency == b.transparency && a.preview
                == b.preview && a.sampler == b.sampler && a.flash_attn == b.flash_attn
        }),
        weight_views(f).len() == f.len(),
        0 <= i < f.len() ==> weight_views(f)[i] == (WeightView {
            repo: f[i].repo@,
            path: f[i].path@,
            size: f[i].size,
            role: f[i].role,
        }),
        r@ == (RgbView { width: r.width as nat, height: r.height as nat, pixels: r.pixels@ }),
        d@ == (DeepView { width: d.width as nat, height: d.height as nat, pixels: d.pixels@ }),
        default_sampler() == -1,
        RESIDENT == 536_870_912,
        REFERENCE_MAX == 1024,
        REFERENCE_LIMIT == 4,
        LOG_INFO == 2,
        LOG_TAIL_LINES == 8,
{
}

/// A shortfall names the card, what it has free, and what is needed.
pub proof fn law_shortfalls_name_what_is_needed(g: Gpu, need: u64, name: Seq<char>)
    ensures
        (g.name@ + " has "@ + size_text(g.vram_free as nat, 1) + " free of "@ + size_text(
            g.vram_total as nat,
            1,
        ) + ", and this needs about "@ + size_text(need as nat, 1)).is_prefix_of(
            shortfall_text(g, need),
        ),
        download_words(name, need) == "downloading "@ + name + " ("@ + size_text(need as nat, 1)
            + ")"@,
{
    let p = g.name@ + " has "@ + size_text(g.vram_free as nat, 1) + " free of "@ + size_text(
        g.vram_total as nat,
        1,
    ) + ", and this needs about "@ + size_text(need as nat, 1);
    assert(p =~= shortfall_text(g, need).take(p.len() as int));
}

/// The complaint of a log is its last; without one it is the last line, and of
/// nothing there is none.
pub proof fn law_last_complaints_are_told(lines: Seq<Seq<char>>, k: int)
    ensures
        complaint_of(seq![]) is None,
        0 <= k < lines.len() && complains(lines[k]) && (forall|j: int|
            k < j < lines.len() ==> !complains(#[trigger] lines[j])) ==> complaint_of(lines) == Some(
            lines[k],
        ),
{
    if 0 <= k < lines.len() && complains(lines[k]) && (forall|j: int|
        k < j < lines.len() ==> !complains(#[trigger] lines[j])) {
        lemma_last_complaint(lines, lines.len() as int, k);
    }
}

proof fn lemma_last_complaint(lines: Seq<Seq<char>>, n: int, k: int)
    requires
        0 <= k < n <= lines.len(),
        complains(lines[k]),
        forall|j: int| k < j < n ==> !complains(#[trigger] lines[j]),
    ensures
        last_complaint(lines, n) == Some(lines[k]),
    decreases n,
{
    if k < n - 1 {
        assert(!complains(lines[n - 1]));
        lemma_last_complaint(lines, n - 1, k);
    }
}

/// Of every point a picture holds three bytes, and a deep one three numbers.
pub proof fn law_pictures_hold_their_points(r: RgbView, d: DeepView)
    ensures
        rgb_ok(r) <==> r.pixels.len() == r.width * r.height * 3,
        deep_ok(d) <==> d.pixels.len() == d.width * d.height * 3,
{
}

/// A shortfall ends with what is done about it.
pub proof fn law_shortfalls_say_what_is_done(g: Gpu, need: u64)
    ensures
        ends(
            shortfall_text(g, need),
            ". Running on the CPU instead: slower, but it will not produce a corrupted image."@,
        ),
{
    let t = shortfall_text(g, need);
    let e = ". Running on the CPU instead: slower, but it will not produce a corrupted image."@;
    assert(t.subrange(t.len() - e.len(), t.len() as int) =~= e);
}

} // verus!
