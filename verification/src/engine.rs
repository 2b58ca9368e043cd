//! Which engine should run this model.
//!
//! The runtime landscape moves faster than anyone can track by hand. llama.cpp sits under
//! most of it, but *the fastest path to a given chip* has flipped repeatedly — Ollama left
//! llama.cpp for its own engine, then adopted MLX on Apple Silicon; MLX leads llama.cpp
//! below ~14B and converges above ~27B; colibri appeared and took the tera-parameter
//! streaming case that nothing else served.
//!
//! Routing is therefore not a static opinion but a lookup against measured facts, and this
//! module is deliberately **a table**. Adding an engine should be a data change, because
//! the churn is the reason the tool exists — absorbing it must be trivial.
//!
//! Two rules the routing must never break:
//!
//! - **Only recommend what is installed**, or say plainly that it is not.
//! - **Never recommend something that will thrash.** One confidently wrong recommendation
//!   costs more trust than ten correct ones earn.

use vstd::prelude::*;
use crate::order;
use crate::text;
use crate::GIB;

verus! {

/// Weight formats an engine can load.
#[derive(Debug, Clone, Copy, PartialEq, Eq, Structural)]
pub enum Format {
    Gguf,
    Mlx,
    Safetensors,
}

/// A set of weight formats.
#[derive(Debug, Clone, Copy, PartialEq, Eq, Structural)]
pub struct Formats {
    /// Whether GGUF is among them.
    pub gguf: bool,
    /// Whether MLX is among them.
    pub mlx: bool,
    /// Whether safetensors is among them.
    pub safetensors: bool,
}

impl Formats {
    /// The format is among them.
    pub open spec fn has(self, format: Format) -> bool {
        match format {
            Format::Gguf => self.gguf,
            Format::Mlx => self.mlx,
            Format::Safetensors => self.safetensors,
        }
    }

    /// Whether the format is among them.
    pub fn contains(&self, format: &Format) -> (r: bool)
        ensures
            r == self.has(*format),
    {
        match format {
            Format::Gguf => self.gguf,
            Format::Mlx => self.mlx,
            Format::Safetensors => self.safetensors,
        }
    }

    /// Whether there is none.
    pub fn is_empty(&self) -> (r: bool)
        ensures
            r == (forall|f: Format| !self.has(f)),
    {
        proof {
            assert(self.gguf == self.has(Format::Gguf));
            assert(self.mlx == self.has(Format::Mlx));
            assert(self.safetensors == self.has(Format::Safetensors));
        }
        !self.gguf && !self.mlx && !self.safetensors
    }
}

/// What an engine does when a model does not fit in memory.
///
/// This is the axis that actually decides the recommendation, and the one no existing tool
/// surfaces.
#[derive(Debug, Clone, Copy, PartialEq, Eq, Structural)]
pub enum Oversized {
    /// Refuses to load, or fails allocating.
    Refuses,
    /// Loads, then pages against the OS and collapses. The worst outcome, because it looks
    /// like it worked.
    Thrashes,
    /// Streams weights from disk by design. Slow, but honest and bounded.
    Streams,
}

/// How a model's size compares to what the machine can hold.
#[derive(Debug, Clone, Copy, PartialEq, Eq, Structural)]
pub enum Regime {
    /// Comfortably resident.
    Fits,
    /// Near the boundary. It may load, but context growth will push it over.
    Tight,
    /// Past what the machine can hold.
    Oversized,
}

/// A model fits below four fifths of the usable memory, and is tight below six fifths of it.
pub open spec fn regime_of(model_bytes: u64, usable: u64) -> Regime {
    if 5 * model_bytes < 4 * usable {
        Regime::Fits
    } else if 5 * model_bytes < 6 * usable {
        Regime::Tight
    } else {
        Regime::Oversized
    }
}

impl Regime {
    /// Classify a model against usable memory.
    ///
    /// `usable` is not physical RAM: the OS, the window server and the KV cache all take a
    /// share, and on Apple Silicon the GPU wired limit binds first.
    pub fn classify(model_bytes: u64, usable: u64) -> (r: Self)
        ensures
            r == regime_of(model_bytes, usable),
    {
        let model = 5 * (model_bytes as u128);
        let usable = usable as u128;
        if model < 4 * usable {
            Regime::Fits
        } else if model < 6 * usable {
            Regime::Tight
        } else {
            Regime::Oversized
        }
    }

    /// How far past the memory a regime is.
    pub open spec fn severity(self) -> int {
        match self {
            Regime::Fits => 0,
            Regime::Tight => 1,
            Regime::Oversized => 2,
        }
    }
}

/// A larger model never fits better, and more memory never makes a model fit worse. Without
/// memory nothing fits.
pub proof fn lemma_regimes_are_monotone(small: u64, large: u64, less: u64, more: u64)
    requires
        small <= large,
        less <= more,
    ensures
        regime_of(small, more).severity() <= regime_of(large, less).severity(),
        regime_of(small, 0) == Regime::Oversized,
{
}

/// A known inference engine.
#[derive(Debug, Clone, Copy)]
pub struct Engine {
    /// Stable identifier, e.g. `lm-studio`.
    pub id: &'static str,
    /// Name as a human would write it.
    pub name: &'static str,
    /// Formats it can load.
    pub formats: Formats,
    /// Behaviour when the model exceeds memory.
    pub oversized: Oversized,
    /// Where it is at its best, in one clause.
    pub sweet_spot: &'static str,
    /// How to install it, when it is absent.
    pub install: &'static str,
}

/// An engine found on this machine.
#[derive(Debug)]
pub struct Installed {
    /// The engine.
    pub engine: Engine,
    /// Where it was found, for the user to verify our detection.
    pub found_at: String,
}

/// The registry.
///
/// Ordered by how generally applicable each engine is, which breaks ties when several are
/// equally suitable.
pub open spec fn registry() -> Seq<Engine> {
    seq![
        Engine {
            id: "lm-studio",
            name: "LM Studio",
            formats: Formats { gguf: true, mlx: true, safetensors: false },
            oversized: Oversized::Thrashes,
            sweet_spot: "models that fit; on Apple Silicon its MLX runtime is near the memory-bandwidth limit",
            install: "https://lmstudio.ai",
        },
        Engine {
            id: "ollama",
            name: "Ollama",
            formats: Formats { gguf: true, mlx: false, safetensors: false },
            oversized: Oversized::Thrashes,
            sweet_spot: "models that fit, with the simplest workflow",
            install: "https://ollama.com/download",
        },
        Engine {
            id: "llama.cpp",
            name: "llama.cpp",
            formats: Formats { gguf: true, mlx: false, safetensors: false },
            oversized: Oversized::Thrashes,
            sweet_spot: "models that fit, with the most control over offload and cache types",
            install: "brew install llama.cpp",
        },
        Engine {
            id: "mlx",
            name: "mlx-lm",
            formats: Formats { gguf: false, mlx: true, safetensors: true },
            oversized: Oversized::Refuses,
            sweet_spot: "Apple Silicon, models that fit; fastest below ~14B",
            install: "pip install mlx-lm",
        },
        Engine {
            id: "colibri",
            name: "colibri",
            formats: Formats { gguf: true, mlx: false, safetensors: false },
            oversized: Oversized::Streams,
            sweet_spot: "models far larger than memory, streaming experts from disk",
            install: "https://github.com/JustVugg/colibri",
        },
    ]
}

/// The registry of known engines.
///
/// Adding an engine here is the entire change: no routing logic to touch.
pub fn engines() -> (r: Vec<Engine>)
    ensures
        r@ == registry(),
{
    let r: Vec<Engine> = vec![
        Engine {
            id: "lm-studio",
            name: "LM Studio",
            formats: Formats { gguf: true, mlx: true, safetensors: false },
            oversized: Oversized::Thrashes,
            sweet_spot: "models that fit; on Apple Silicon its MLX runtime is near the memory-bandwidth limit",
            install: "https://lmstudio.ai",
        },
        Engine {
            id: "ollama",
            name: "Ollama",
            formats: Formats { gguf: true, mlx: false, safetensors: false },
            oversized: Oversized::Thrashes,
            sweet_spot: "models that fit, with the simplest workflow",
            install: "https://ollama.com/download",
        },
        Engine {
            id: "llama.cpp",
            name: "llama.cpp",
            formats: Formats { gguf: true, mlx: false, safetensors: false },
            oversized: Oversized::Thrashes,
            sweet_spot: "models that fit, with the most control over offload and cache types",
            install: "brew install llama.cpp",
        },
        Engine {
            id: "mlx",
            name: "mlx-lm",
            formats: Formats { gguf: false, mlx: true, safetensors: true },
            oversized: Oversized::Refuses,
            sweet_spot: "Apple Silicon, models that fit; fastest below ~14B",
            install: "pip install mlx-lm",
        },
        Engine {
            id: "colibri",
            name: "colibri",
            formats: Formats { gguf: true, mlx: false, safetensors: false },
            oversized: Oversized::Streams,
            sweet_spot: "models far larger than memory, streaming experts from disk",
            install: "https://github.com/JustVugg/colibri",
        },
    ];
    assert(r@ =~= registry());
    r
}

// ---------------------------------------------------------------------------
// Detection

/// What looking around on this machine brought up: where the programs stand on `PATH`, and
/// what `LOCALAPPDATA` is.
#[derive(Debug)]
pub struct Probes {
    /// `ollama` on `PATH`.
    pub ollama: Option<String>,
    /// `llama-server` on `PATH`.
    pub llama_server: Option<String>,
    /// `llama-cli` on `PATH`.
    pub llama_cli: Option<String>,
    /// `mlx_lm.generate` on `PATH`.
    pub mlx_generate: Option<String>,
    /// `colibri` on `PATH`.
    pub colibri: Option<String>,
    /// Where Windows installers put per-user programs; absent elsewhere.
    pub local_app_data: Option<String>,
}

/// A probe's result as a list.
pub open spec fn found_list(probe: Option<String>) -> Seq<Seq<char>> {
    match probe {
        Some(p) => seq![p@],
        None => Seq::empty(),
    }
}

/// Where an engine might be, most specific first; nothing where no rule exists for it.
pub open spec fn candidates(id: Seq<char>, home: Option<Seq<char>>, probes: Probes) -> Option<
    Seq<Seq<char>>,
> {
    if id == "lm-studio"@ {
        Some(
            (match home {
                Some(h) => seq![text::under(h, ".lmstudio/bin/lms"@)],
                None => Seq::empty(),
            }) + seq!["/Applications/LM Studio.app"@],
        )
    } else if id == "ollama"@ {
        Some(
            found_list(probes.ollama) + seq![
                "/Applications/Ollama.app"@,
                "/usr/local/bin/ollama"@,
                "/opt/homebrew/bin/ollama"@,
            ] + (match probes.local_app_data {
                Some(d) => seq![text::under(d@, "Programs/Ollama/ollama.exe"@)],
                None => Seq::empty(),
            }),
        )
    } else if id == "llama.cpp"@ {
        Some(found_list(probes.llama_server) + found_list(probes.llama_cli))
    } else if id == "mlx"@ {
        Some(found_list(probes.mlx_generate))
    } else if id == "colibri"@ {
        Some(found_list(probes.colibri))
    } else {
        None
    }
}

/// Adds what a probe brought up to a list.
fn push_found(paths: &mut Vec<String>, probe: &Option<String>)
    ensures
        text::strings(final(paths)@) == text::strings(old(paths)@) + found_list(*probe),
{
    match probe {
        Some(p) => {
            paths.push(p.clone());
            assert(text::strings(paths@) =~= text::strings(old(paths)@) + found_list(*probe));
        },
        None => {
            assert(text::strings(paths@) =~= text::strings(old(paths)@) + found_list(*probe));
        },
    }
}

/// Adds a path to a list.
fn push_path(paths: &mut Vec<String>, path: String)
    ensures
        text::strings(final(paths)@) == text::strings(old(paths)@).push(path@),
{
    paths.push(path);
    assert(text::strings(paths@) =~= text::strings(old(paths)@).push(path@));
}

/// Where each engine might be, most specific first.
///
/// **Every entry must be something that can run a model** — a binary or an application
/// bundle — and never a data directory. `ollama pull` creates `~/.ollama` and uninstalling
/// Ollama leaves it behind; reporting an engine on the strength of it would route models to
/// an engine that is gone.
///
/// `None` means no rule exists for this id — distinct from an empty list, which means
/// there is a rule and this machine matched none of it.
pub fn candidate_paths(id: &str, home: Option<&str>, probes: &Probes) -> (r: Option<Vec<String>>)
    ensures
        match r {
            Some(paths) => candidates(
                id@,
                match home {
                    Some(h) => Some(h@),
                    None => None,
                },
                *probes,
            ) == Some(text::strings(paths@)),
            None => candidates(
                id@,
                match home {
                    Some(h) => Some(h@),
                    None => None,
                },
                *probes,
            ) is None,
        },
{
    let mut paths: Vec<String> = Vec::new();
    assert(text::strings(paths@) =~= Seq::<Seq<char>>::empty());
    if text::same_str(id, "lm-studio") {
        match home {
            Some(h) => push_path(&mut paths, text::join_under(h, ".lmstudio/bin/lms")),
            None => {},
        }
        push_path(&mut paths, "/Applications/LM Studio.app".to_owned());
        proof {
            let want = candidates(id@, match home {
                Some(h) => Some(h@),
                None => None,
            }, *probes)->0;
            assert(text::strings(paths@) =~= want);
        }
        return Some(paths);
    }
    if text::same_str(id, "ollama") {
        push_found(&mut paths, &probes.ollama);
        push_path(&mut paths, "/Applications/Ollama.app".to_owned());
        push_path(&mut paths, "/usr/local/bin/ollama".to_owned());
        push_path(&mut paths, "/opt/homebrew/bin/ollama".to_owned());
        match &probes.local_app_data {
            Some(d) => push_path(
                &mut paths,
                text::join_under(d.as_str(), "Programs/Ollama/ollama.exe"),
            ),
            None => {},
        }
        proof {
            reveal_strlit("lm-studio");
            reveal_strlit("ollama");
            let want = candidates(id@, match home {
                Some(h) => Some(h@),
                None => None,
            }, *probes)->0;
            assert(text::strings(paths@) =~= want);
        }
        return Some(paths);
    }
    if text::same_str(id, "llama.cpp") {
        push_found(&mut paths, &probes.llama_server);
        push_found(&mut paths, &probes.llama_cli);
        proof {
            let want = candidates(id@, match home {
                Some(h) => Some(h@),
                None => None,
            }, *probes)->0;
            assert(text::strings(paths@) =~= want);
        }
        return Some(paths);
    }
    if text::same_str(id, "mlx") {
        push_found(&mut paths, &probes.mlx_generate);
        assert(text::strings(paths@) =~= found_list(probes.mlx_generate));
        return Some(paths);
    }
    if text::same_str(id, "colibri") {
        push_found(&mut paths, &probes.colibri);
        assert(text::strings(paths@) =~= found_list(probes.colibri));
        return Some(paths);
    }
    None
}

/// The places where a program may stand in the directories of `PATH`: under its name, or under
/// its name with the `.exe` that Windows installers give it.
pub open spec fn program_places(dirs: Seq<Seq<char>>, bin: Seq<char>) -> Seq<Seq<char>>
    decreases dirs.len(),
{
    if dirs.len() == 0 {
        Seq::empty()
    } else {
        program_places(dirs.drop_last(), bin).push(text::under(dirs.last(), bin)).push(
            text::under(dirs.last(), bin + ".exe"@),
        )
    }
}

/// The places where a program may stand in the directories of `PATH`, in the order in which
/// they are looked at.
pub fn which(dirs: &Vec<String>, bin: &str) -> (r: Vec<String>)
    ensures
        text::strings(r@) == program_places(text::strings(dirs@), bin@),
{
    let ghost all = text::strings(dirs@);
    let mut exe = String::from_str(bin);
    exe.append(".exe");
    let mut out: Vec<String> = Vec::new();
    let mut i: usize = 0;
    assert(text::strings(out@) =~= program_places(all.take(0), bin@));
    while i < dirs.len()
        invariant
            all == text::strings(dirs@),
            exe@ == bin@ + ".exe"@,
            i <= dirs@.len(),
            text::strings(out@) == program_places(all.take(i as int), bin@),
        decreases dirs@.len() - i,
    {
        proof {
            assert(all.take(i + 1).drop_last() =~= all.take(i as int));
            assert(all.take(i + 1).last() == dirs@[i as int]@);
        }
        push_path(&mut out, text::join_under(dirs[i].as_str(), bin));
        push_path(&mut out, text::join_under(dirs[i].as_str(), exe.as_str()));
        i += 1;
    }
    assert(all.take(i as int) =~= all);
    out
}

/// The first of the paths that exists.
pub open spec fn first_existing(paths: Seq<Seq<char>>, exists_: Seq<bool>) -> Option<Seq<char>>
    decreases paths.len(),
{
    if paths.len() == 0 || exists_.len() == 0 {
        None
    } else if exists_.first() {
        Some(paths.first())
    } else {
        first_existing(paths.drop_first(), exists_.drop_first())
    }
}

/// The engine as found on this machine, from which of its candidate paths exist.
///
/// Detection is best-effort and **fails soft**: a missing binary means "not found here",
/// never "not installed".
pub fn detect_installed(engine: &Engine, paths: &Vec<String>, present: &Vec<bool>) -> (r: Option<
    Installed,
>)
    ensures
        match r {
            Some(i) => {
                &&& i.engine == *engine
                &&& first_existing(text::strings(paths@), present@) == Some(i.found_at@)
            },
            None => first_existing(text::strings(paths@), present@) is None,
        },
{
    let ghost all = text::strings(paths@);
    let mut i: usize = 0;
    assert(all.skip(0) =~= all);
    assert(present@.skip(0) =~= present@);
    while i < paths.len() && i < present.len()
        invariant
            all == text::strings(paths@),
            i <= paths@.len(),
            i <= present@.len(),
            first_existing(all, present@) == first_existing(
                all.skip(i as int),
                present@.skip(i as int),
            ),
        decreases paths@.len() - i,
    {
        proof {
            assert(all.skip(i as int).first() == paths@[i as int]@);
            assert(all.skip(i as int).drop_first() =~= all.skip(i + 1));
            assert(present@.skip(i as int).drop_first() =~= present@.skip(i + 1));
        }
        if present[i] {
            return Some(Installed { engine: *engine, found_at: paths[i].clone() });
        }
        i += 1;
    }
    None
}

// ---------------------------------------------------------------------------
// Routing

/// The engine is among those found on this machine.
pub open spec fn is_present(e: Engine, installed: Seq<Installed>) -> bool {
    exists|i: int| 0 <= i < installed.len() && (#[trigger] installed[i]).engine.id@ == e.id@
}

/// The engine reads the format and does not fall over in the regime.
pub open spec fn is_suitable(e: Engine, format: Format, regime: Regime) -> bool {
    e.formats.has(format) && (regime == Regime::Oversized ==> e.oversized == Oversized::Streams)
}

/// The engines that read the format and do not fall over in the regime.
pub open spec fn suitable_engines(format: Format, regime: Regime) -> Seq<Engine> {
    registry().filter(|e: Engine| is_suitable(e, format, regime))
}

/// The first of the engines that is present.
pub open spec fn first_present(engines: Seq<Engine>, installed: Seq<Installed>) -> Option<Engine>
    decreases engines.len(),
{
    if engines.len() == 0 {
        None
    } else if is_present(engines.first(), installed) {
        Some(engines.first())
    } else {
        first_present(engines.drop_first(), installed)
    }
}

/// The engine to use: the first suitable one that is present, or else the first suitable one —
/// a recommendation the user cannot act on is not a recommendation.
pub open spec fn chosen_engine(
    format: Format,
    regime: Regime,
    installed: Seq<Installed>,
) -> Option<Engine> {
    let suitable = suitable_engines(format, regime);
    match first_present(suitable, installed) {
        Some(e) => Some(e),
        None => if suitable.len() > 0 {
            Some(suitable.first())
        } else {
            None
        },
    }
}

/// What an engine that does not stream does with a model that is too large.
pub open spec fn misbehaviour(oversized: Oversized) -> &'static str {
    match oversized {
        Oversized::Refuses => "will refuse to load a model this size",
        _ => "will load, then page against the OS and slow to a crawl",
    }
}

/// The engines that are present and would handle the model badly.
pub open spec fn engines_to_avoid(
    format: Format,
    regime: Regime,
    installed: Seq<Installed>,
) -> Seq<(Engine, &'static str)> {
    if regime == Regime::Oversized {
        registry().filter(
            |e: Engine|
                e.formats.has(format) && e.oversized != Oversized::Streams && is_present(
                    e,
                    installed,
                ),
        ).map_values(|e: Engine| (e, misbehaviour(e.oversized)))
    } else {
        Seq::empty()
    }
}

/// The suitable engines that are absent, but for the one to use.
pub open spec fn engines_to_install(
    format: Format,
    regime: Regime,
    installed: Seq<Installed>,
) -> Seq<Engine> {
    let chosen = chosen_engine(format, regime, installed);
    suitable_engines(format, regime).filter(
        |e: Engine|
            !is_present(e, installed) && (chosen matches Some(c) ==> c.id@ != e.id@),
    )
}

/// A number of bytes in tenths of a GiB, rounded to the nearest; a half to the even one.
pub open spec fn gib_tenths(bytes: nat) -> nat {
    let n = bytes * 10;
    let q = n / (GIB as nat);
    let rest = n % (GIB as nat);
    if 2 * rest > GIB || (2 * rest == GIB && q % 2 == 1) {
        q + 1
    } else {
        q
    }
}

/// A number of bytes in GiB, with one decimal.
pub open spec fn gib_text(bytes: nat) -> Seq<char> {
    text::decimal(gib_tenths(bytes) / 10) + "."@ + text::decimal(gib_tenths(bytes) % 10)
}

/// Why this engine, in a sentence a user can check.
pub open spec fn reason_for(chosen: Option<Engine>, regime: Regime, model_bytes: u64) -> Seq<char> {
    match chosen {
        None => if regime == Regime::Oversized {
            "at "@ + gib_text(model_bytes as nat)
                + " GiB this exceeds what the machine can hold, and no installed engine streams weights from disk"@
        } else {
            "no known engine reads this format"@
        },
        Some(e) => match regime {
            Regime::Fits => "it fits in memory, and "@ + e.sweet_spot@,
            Regime::Tight => "it only just fits — "@ + e.sweet_spot@
                + " — so expect trouble once the KV cache grows"@,
            Regime::Oversized => "it exceeds memory, and "@ + e.name@ + " is the one that "@
                + e.sweet_spot@,
        },
    }
}

/// A routing recommendation.
#[derive(Debug)]
pub struct Recommendation {
    /// The engine to use, if any is suitable.
    pub engine: Option<Engine>,
    /// Whether it is installed here.
    pub installed: bool,
    /// Why this one, in a sentence a user can check.
    pub reason: String,
    /// Engines that could run it but are absent.
    pub also_suitable: Vec<Engine>,
    /// Engines that are installed but would handle this badly.
    pub avoid: Vec<(Engine, &'static str)>,
}

/// What a [`Recommendation`] holds.
#[verifier::ext_equal]
pub struct RecommendationView {
    pub engine: Option<Engine>,
    pub installed: bool,
    pub reason: Seq<char>,
    pub also_suitable: Seq<Engine>,
    pub avoid: Seq<(Engine, &'static str)>,
}

impl View for Recommendation {
    type V = RecommendationView;

    open spec fn view(&self) -> RecommendationView {
        RecommendationView {
            engine: self.engine,
            installed: self.installed,
            reason: self.reason@,
            also_suitable: self.also_suitable@,
            avoid: self.avoid@,
        }
    }
}

/// The recommendation for a model of `model_bytes` in `format`, given `usable` memory and the
/// engines found on this machine.
pub open spec fn routed(
    model_bytes: u64,
    format: Format,
    usable: u64,
    installed: Seq<Installed>,
) -> RecommendationView {
    let regime = regime_of(model_bytes, usable);
    let chosen = chosen_engine(format, regime, installed);
    RecommendationView {
        engine: chosen,
        installed: chosen matches Some(e) && is_present(e, installed),
        reason: reason_for(chosen, regime, model_bytes),
        also_suitable: engines_to_install(format, regime, installed),
        avoid: engines_to_avoid(format, regime, installed),
    }
}

fn present(e: &Engine, installed: &[Installed]) -> (r: bool)
    ensures
        r == is_present(*e, installed@),
{
    let mut i: usize = 0;
    while i < installed.len()
        invariant
            i <= installed@.len(),
            forall|k: int| 0 <= k < i ==> (#[trigger] installed@[k]).engine.id@ != e.id@,
        decreases installed@.len() - i,
    {
        if text::same_str(installed[i].engine.id, e.id) {
            return true;
        }
        i += 1;
    }
    false
}

fn suits(e: &Engine, format: Format, regime: Regime) -> (r: bool)
    ensures
        r == is_suitable(*e, format, regime),
{
    e.formats.contains(&format) && (regime != Regime::Oversized || e.oversized
        == Oversized::Streams)
}

fn collect_suitable(format: Format, regime: Regime) -> (r: Vec<Engine>)
    ensures
        r@ == suitable_engines(format, regime),
{
    let all = engines();
    let ghost keep = |e: Engine| is_suitable(e, format, regime);
    let mut out: Vec<Engine> = Vec::new();
    let mut i: usize = 0;
    proof {
        reveal(Seq::filter);
        assert(out@ =~= all@.take(0).filter(keep));
    }
    while i < all.len()
        invariant
            keep == (|e: Engine| is_suitable(e, format, regime)),
            i <= all@.len(),
            out@ == all@.take(i as int).filter(keep),
        decreases all@.len() - i,
    {
        proof {
            reveal(Seq::filter);
            assert(all@.take(i + 1).drop_last() =~= all@.take(i as int));
        }
        if suits(&all[i], format, regime) {
            out.push(all[i]);
        }
        i += 1;
    }
    assert(all@.take(i as int) =~= all@);
    out
}

fn choose_engine(suitable: &Vec<Engine>, installed: &[Installed]) -> (r: Option<Engine>)
    ensures
        r == match first_present(suitable@, installed@) {
            Some(e) => Some(e),
            None => if suitable@.len() > 0 {
                Some(suitable@.first())
            } else {
                None
            },
        },
{
    let mut i: usize = 0;
    assert(suitable@.skip(0) =~= suitable@);
    while i < suitable.len()
        invariant
            i <= suitable@.len(),
            first_present(suitable@, installed@) == first_present(
                suitable@.skip(i as int),
                installed@,
            ),
        decreases suitable@.len() - i,
    {
        assert(suitable@.skip(i as int).drop_first() =~= suitable@.skip(i + 1));
        if present(&suitable[i], installed) {
            return Some(suitable[i]);
        }
        i += 1;
    }
    if suitable.len() > 0 {
        Some(suitable[0])
    } else {
        None
    }
}

fn collect_avoid(format: Format, regime: Regime, installed: &[Installed]) -> (r: Vec<
    (Engine, &'static str),
>)
    ensures
        r@ == engines_to_avoid(format, regime, installed@),
{
    let mut out: Vec<(Engine, &'static str)> = Vec::new();
    if regime != Regime::Oversized {
        assert(out@ =~= engines_to_avoid(format, regime, installed@));
        return out;
    }
    let all = engines();
    let ghost keep = |e: Engine|
        e.formats.has(format) && e.oversized != Oversized::Streams && is_present(e, installed@);
    let ghost say = |e: Engine| (e, misbehaviour(e.oversized));
    let mut i: usize = 0;
    proof {
        reveal(Seq::filter);
        assert(out@ =~= all@.take(0).filter(keep).map_values(say));
    }
    while i < all.len()
        invariant
            keep == (|e: Engine|
                e.formats.has(format) && e.oversized != Oversized::Streams && is_present(
                    e,
                    installed@,
                )),
            say == (|e: Engine| (e, misbehaviour(e.oversized))),
            i <= all@.len(),
            out@ == all@.take(i as int).filter(keep).map_values(say),
        decreases all@.len() - i,
    {
        let ghost before = all@.take(i as int).filter(keep);
        let e = all[i];
        proof {
            reveal(Seq::filter);
            assert(all@.take(i + 1).drop_last() =~= all@.take(i as int));
            assert(before.push(e).map_values(say) =~= before.map_values(say).push(say(e)));
        }
        if e.formats.contains(&format) && e.oversized != Oversized::Streams && present(
            &e,
            installed,
        ) {
            let why = match e.oversized {
                Oversized::Refuses => "will refuse to load a model this size",
                _ => "will load, then page against the OS and slow to a crawl",
            };
            out.push((e, why));
        }
        i += 1;
    }
    assert(all@.take(i as int) =~= all@);
    out
}

fn collect_absent(
    suitable: &Vec<Engine>,
    chosen: &Option<Engine>,
    installed: &[Installed],
) -> (r: Vec<Engine>)
    ensures
        r@ == suitable@.filter(
            |e: Engine|
                !is_present(e, installed@) && (*chosen matches Some(c) ==> c.id@ != e.id@),
        ),
{
    let ghost keep = |e: Engine|
        !is_present(e, installed@) && (*chosen matches Some(c) ==> c.id@ != e.id@);
    let mut out: Vec<Engine> = Vec::new();
    let mut i: usize = 0;
    proof {
        reveal(Seq::filter);
        assert(out@ =~= suitable@.take(0).filter(keep));
    }
    while i < suitable.len()
        invariant
            keep == (|e: Engine|
                !is_present(e, installed@) && (*chosen matches Some(c) ==> c.id@ != e.id@)),
            i <= suitable@.len(),
            out@ == suitable@.take(i as int).filter(keep),
        decreases suitable@.len() - i,
    {
        proof {
            reveal(Seq::filter);
            assert(suitable@.take(i + 1).drop_last() =~= suitable@.take(i as int));
        }
        let other = match chosen {
            Some(c) => !text::same_str(c.id, suitable[i].id),
            None => true,
        };
        if other && !present(&suitable[i], installed) {
            out.push(suitable[i]);
        }
        i += 1;
    }
    assert(suitable@.take(i as int) =~= suitable@);
    out
}

/// A number of bytes in GiB, with one decimal.
pub fn format_gib(bytes: u64) -> (r: String)
    ensures
        r@ == gib_text(bytes as nat),
{
    let n = bytes as u128 * 10;
    let q = n / (GIB as u128);
    let rest = n % (GIB as u128);
    let tenths = if 2 * rest > GIB as u128 || (2 * rest == GIB as u128 && q % 2 == 1) {
        q + 1
    } else {
        q
    };
    let mut s = text::decimal_string((tenths / 10) as u64);
    s.append(".");
    s.append(text::decimal_string((tenths % 10) as u64).as_str());
    s
}

/// Recommend an engine for a model of `model_bytes` in `format`, given `usable` memory.
pub fn route(model_bytes: u64, format: Format, usable: u64, installed: &[Installed]) -> (r:
    Recommendation)
    ensures
        r@ == routed(model_bytes, format, usable, installed@),
{
    let regime = Regime::classify(model_bytes, usable);
    let suitable = collect_suitable(format, regime);
    // Naming what to avoid is as valuable as naming what to use: an engine that thrashes
    // looks like it is working, which is precisely why users lose hours to it.
    let avoid = collect_avoid(format, regime, installed);
    let chosen = choose_engine(&suitable, installed);
    let also_suitable = collect_absent(&suitable, &chosen, installed);
    let is_installed = match &chosen {
        Some(e) => present(e, installed),
        None => false,
    };
    let reason = match &chosen {
        None => match regime {
            Regime::Oversized => {
                let mut s = String::from_str("at ");
                s.append(format_gib(model_bytes).as_str());
                s.append(
                    " GiB this exceeds what the machine can hold, and no installed engine streams weights from disk",
                );
                s
            },
            _ => String::from_str("no known engine reads this format"),
        },
        Some(e) => match regime {
            Regime::Fits => {
                let mut s = String::from_str("it fits in memory, and ");
                s.append(e.sweet_spot);
                s
            },
            Regime::Tight => {
                let mut s = String::from_str("it only just fits — ");
                s.append(e.sweet_spot);
                s.append(" — so expect trouble once the KV cache grows");
                s
            },
            Regime::Oversized => {
                let mut s = String::from_str("it exceeds memory, and ");
                s.append(e.name);
                s.append(" is the one that ");
                s.append(e.sweet_spot);
                s
            },
        },
    };
    Recommendation { engine: chosen, installed: is_installed, reason, also_suitable, avoid }
}

// ---------------------------------------------------------------------------
// What holds of every recommendation

proof fn lemma_first_present(engines: Seq<Engine>, installed: Seq<Installed>)
    ensures
        first_present(engines, installed) matches Some(e) ==> engines.contains(e) && is_present(
            e,
            installed,
        ),
        first_present(engines, installed) is None ==> forall|i: int|
            0 <= i < engines.len() ==> !is_present(#[trigger] engines[i], installed),
    decreases engines.len(),
{
    if engines.len() > 0 {
        if is_present(engines.first(), installed) {
            assert(engines.contains(engines[0]));
        } else {
            let rest = engines.drop_first();
            lemma_first_present(rest, installed);
            if let Some(e) = first_present(rest, installed) {
                let i = choose|i: int| 0 <= i < rest.len() && rest[i] == e;
                assert(engines[i + 1] == e);
            } else {
                assert forall|i: int| 0 <= i < engines.len() implies !is_present(
                    #[trigger] engines[i],
                    installed,
                ) by {
                    if i > 0 {
                        assert(engines[i] == rest[i - 1]);
                    }
                }
            }
        }
    }
}

/// The engine to use reads the format, and one that thrashes or refuses is never it when the
/// model is too large.
pub proof fn lemma_never_recommends_what_thrashes(
    model_bytes: u64,
    format: Format,
    usable: u64,
    installed: Seq<Installed>,
)
    ensures
        routed(model_bytes, format, usable, installed).engine matches Some(e) ==> {
            &&& registry().contains(e)
            &&& e.formats.has(format)
            &&& regime_of(model_bytes, usable) == Regime::Oversized ==> e.oversized
                == Oversized::Streams
        },
{
    let regime = regime_of(model_bytes, usable);
    let keep = |e: Engine| is_suitable(e, format, regime);
    let suitable = suitable_engines(format, regime);
    broadcast use vstd::seq_lib::group_filter_ensures;

    lemma_first_present(suitable, installed);
    if let Some(e) = chosen_engine(format, regime, installed) {
        assert(suitable.contains(e)) by {
            if first_present(suitable, installed) is None {
                assert(suitable[0] == e);
            }
        }
        let i = choose|i: int| 0 <= i < suitable.len() && suitable[i] == e;
        assert(keep(suitable[i]));
        lemma_filter_keeps(registry(), keep, i);
    }
}

/// Whatever a filter lets through was there before.
proof fn lemma_filter_keeps(s: Seq<Engine>, keep: spec_fn(Engine) -> bool, i: int)
    requires
        0 <= i < s.filter(keep).len(),
    ensures
        s.contains(s.filter(keep)[i]),
    decreases s.len(),
{
    reveal(Seq::filter);
    if s.len() > 0 {
        let head = s.drop_last().filter(keep);
        if i < head.len() {
            lemma_filter_keeps(s.drop_last(), keep, i);
            let k = choose|k: int|
                0 <= k < s.drop_last().len() && s.drop_last()[k] == head[i];
            assert(s[k] == s.filter(keep)[i]);
        } else {
            assert(s[s.len() - 1] == s.filter(keep)[i]);
        }
    }
}

/// Whether the engine to use is installed is said truly; and where any suitable engine is
/// installed, the one to use is.
pub proof fn lemma_recommends_what_is_installed(
    model_bytes: u64,
    format: Format,
    usable: u64,
    installed: Seq<Installed>,
    other: Engine,
)
    ensures
        routed(model_bytes, format, usable, installed).installed <==> (routed(
            model_bytes,
            format,
            usable,
            installed,
        ).engine matches Some(e) && is_present(e, installed)),
        registry().contains(other) && is_suitable(other, format, regime_of(model_bytes, usable))
            && is_present(other, installed) ==> routed(
            model_bytes,
            format,
            usable,
            installed,
        ).installed,
{
    let regime = regime_of(model_bytes, usable);
    let keep = |e: Engine| is_suitable(e, format, regime);
    let suitable = suitable_engines(format, regime);
    broadcast use vstd::seq_lib::group_filter_ensures;

    lemma_first_present(suitable, installed);
    if registry().contains(other) && is_suitable(other, format, regime) && is_present(
        other,
        installed,
    ) {
        let k = choose|k: int| 0 <= k < registry().len() && registry()[k] == other;
        assert(keep(registry()[k]));
        assert(suitable.contains(other));
        let i = choose|i: int| 0 <= i < suitable.len() && suitable[i] == other;
        assert(is_present(suitable[i], installed));
    }
}

/// Only installed engines are named as things to avoid, only for a model that is too large,
/// and never the engine to use.
pub proof fn lemma_avoids_only_what_is_installed(
    model_bytes: u64,
    format: Format,
    usable: u64,
    installed: Seq<Installed>,
    i: int,
)
    requires
        0 <= i < routed(model_bytes, format, usable, installed).avoid.len(),
    ensures
        regime_of(model_bytes, usable) == Regime::Oversized,
        is_present(routed(model_bytes, format, usable, installed).avoid[i].0, installed),
        routed(model_bytes, format, usable, installed).avoid[i].0.formats.has(format),
        routed(model_bytes, format, usable, installed).engine != Some(
            routed(model_bytes, format, usable, installed).avoid[i].0,
        ),
        routed(model_bytes, format, usable, installed).avoid[i].1@.len() > 0,
{
    let keep = |e: Engine|
        e.formats.has(format) && e.oversized != Oversized::Streams && is_present(e, installed);
    broadcast use vstd::seq_lib::group_filter_ensures;

    let kept = registry().filter(keep);
    assert(keep(kept[i]));
    lemma_never_recommends_what_thrashes(model_bytes, format, usable, installed);
    reveal_strlit("will refuse to load a model this size");
    reveal_strlit("will load, then page against the OS and slow to a crawl");
}

/// What else is suggested is suitable, is not installed, and is not the engine to use.
pub proof fn lemma_suggestions_are_absent(
    model_bytes: u64,
    format: Format,
    usable: u64,
    installed: Seq<Installed>,
    i: int,
)
    requires
        0 <= i < routed(model_bytes, format, usable, installed).also_suitable.len(),
    ensures
        ({
            let r = routed(model_bytes, format, usable, installed);
            &&& !is_present(r.also_suitable[i], installed)
            &&& is_suitable(r.also_suitable[i], format, regime_of(model_bytes, usable))
            &&& r.engine != Some(r.also_suitable[i])
        }),
{
    let regime = regime_of(model_bytes, usable);
    let chosen = chosen_engine(format, regime, installed);
    let suitable = suitable_engines(format, regime);
    let keep = |e: Engine|
        !is_present(e, installed) && (chosen matches Some(c) ==> c.id@ != e.id@);
    let fit = |e: Engine| is_suitable(e, format, regime);
    broadcast use vstd::seq_lib::group_filter_ensures;

    let also = suitable.filter(keep);
    assert(keep(also[i]));
    lemma_filter_keeps(suitable, keep, i);
    let k = choose|k: int| 0 <= k < suitable.len() && suitable[k] == also[i];
    assert(fit(suitable[k]));
}

/// The ids of the engines found on this machine.
pub open spec fn installed_ids(installed: Seq<Installed>) -> Set<Seq<char>> {
    Set::new(
        |id: Seq<char>|
            exists|i: int| 0 <= i < installed.len() && (#[trigger] installed[i]).engine.id@ == id,
    )
}

/// A recommendation depends only on which engines are installed: neither on where they were found,
/// nor on their order, nor on how often one was.
pub proof fn lemma_routes_by_what_is_installed(
    model_bytes: u64,
    format: Format,
    usable: u64,
    a: Seq<Installed>,
    b: Seq<Installed>,
)
    requires
        installed_ids(a) == installed_ids(b),
    ensures
        routed(model_bytes, format, usable, a) == routed(model_bytes, format, usable, b),
{
    let regime = regime_of(model_bytes, usable);
    let suitable = suitable_engines(format, regime);
    assert forall|e: Engine| is_present(e, a) == #[trigger] is_present(e, b) by {
        assert(is_present(e, a) == installed_ids(a).contains(e.id@));
        assert(is_present(e, b) == installed_ids(b).contains(e.id@));
    }
    lemma_first_present_of(suitable, a, b);
    let chosen = chosen_engine(format, regime, a);
    let avoid_a = |e: Engine|
        e.formats.has(format) && e.oversized != Oversized::Streams && is_present(e, a);
    let avoid_b = |e: Engine|
        e.formats.has(format) && e.oversized != Oversized::Streams && is_present(e, b);
    assert forall|e: Engine| #[trigger] avoid_a(e) == avoid_b(e) by {
        assert(is_present(e, a) == is_present(e, b));
    }
    assert(avoid_a =~= avoid_b);
    let absent_a = |e: Engine| !is_present(e, a) && (chosen matches Some(c) ==> c.id@ != e.id@);
    let absent_b = |e: Engine| !is_present(e, b) && (chosen matches Some(c) ==> c.id@ != e.id@);
    assert forall|e: Engine| #[trigger] absent_a(e) == absent_b(e) by {
        assert(is_present(e, a) == is_present(e, b));
    }
    assert(absent_a =~= absent_b);
    assert(engines_to_install(format, regime, a) == suitable.filter(absent_a));
    assert(engines_to_install(format, regime, b) == suitable.filter(absent_b));
    if let Some(e) = chosen {
        assert(is_present(e, a) == is_present(e, b));
    }
}

proof fn lemma_first_present_of(engines: Seq<Engine>, a: Seq<Installed>, b: Seq<Installed>)
    requires
        forall|e: Engine| is_present(e, a) == #[trigger] is_present(e, b),
    ensures
        first_present(engines, a) == first_present(engines, b),
    decreases engines.len(),
{
    if engines.len() > 0 {
        assert(is_present(engines.first(), a) == is_present(engines.first(), b));
        lemma_first_present_of(engines.drop_first(), a, b);
    }
}

/// Every row of the registry is complete, has a name of its own and a rule by which it is
/// looked for; and some engine can handle models that are too large.
pub proof fn lemma_registry_is_complete(home: Option<Seq<char>>, probes: Probes)
    ensures
        forall|i: int|
            0 <= i < registry().len() ==> {
                let e = #[trigger] registry()[i];
                &&& e.id@.len() > 0
                &&& e.name@.len() > 0
                &&& e.sweet_spot@.len() > 0
                &&& e.install@.len() > 0
                &&& e.formats.gguf || e.formats.mlx || e.formats.safetensors
                &&& candidates(e.id@, home, probes) is Some
            },
        forall|i: int, j: int|
            0 <= i < j < registry().len() ==> (#[trigger] registry()[i]).id@ != (
            #[trigger] registry()[j]).id@,
        registry()[4].oversized == Oversized::Streams,
{
    reveal_strlit("lm-studio");
    reveal_strlit("ollama");
    reveal_strlit("llama.cpp");
    reveal_strlit("mlx");
    reveal_strlit("colibri");
    reveal_strlit("LM Studio");
    reveal_strlit("Ollama");
    reveal_strlit("mlx-lm");
    reveal_strlit(
        "models that fit; on Apple Silicon its MLX runtime is near the memory-bandwidth limit",
    );
    reveal_strlit("models that fit, with the simplest workflow");
    reveal_strlit("models that fit, with the most control over offload and cache types");
    reveal_strlit("Apple Silicon, models that fit; fastest below ~14B");
    reveal_strlit("models far larger than memory, streaming experts from disk");
    reveal_strlit("https://lmstudio.ai");
    reveal_strlit("https://ollama.com/download");
    reveal_strlit("brew install llama.cpp");
    reveal_strlit("pip install mlx-lm");
    reveal_strlit("https://github.com/JustVugg/colibri");
    assert("ollama"@[0] == 'o' && "colibri"@[0] == 'c' && "mlx"@[0] == 'm' && "lm-studio"@[1] == 'm'
        && "llama.cpp"@[1] == 'l');
}

/// The last part of a path that was put together from a directory and a program in a
/// directory of its own.
proof fn lemma_last_part(head: Seq<char>, name: Seq<char>)
    requires
        forall|i: int| 0 <= i < name.len() ==> name[i] != '/',
    ensures
        text::after_last(head + seq!['/'] + name, '/') == name,
{
    let s = head + seq!['/'] + name;
    let p = seq!['/'];
    let at = head.len() as int;
    assert(s.subrange(at, at + 1) =~= p);
    assert forall|j: int| text::occurs_at(s, p, j) implies j <= at by {
        if j > at {
            assert(s.subrange(j, j + 1)[0] == s[j]);
            assert(s[j] == name[j - at - 1]);
        }
    }
    text::lemma_rsplit_once_at(s, p, at);
    assert(s.skip(at + 1) =~= name);
}

/// Nothing that is looked for is a data directory: what is not a program found on `PATH` ends
/// in a name that does not start with a dot.
pub proof fn lemma_candidates_are_programs(
    id: Seq<char>,
    home: Option<Seq<char>>,
    probes: Probes,
    i: int,
)
    requires
        candidates(id, home, probes) matches Some(paths) && 0 <= i < paths.len(),
    ensures
        ({
            let path = candidates(id, home, probes)->0[i];
            ||| found_list(probes.ollama).contains(path)
            ||| found_list(probes.llama_server).contains(path)
            ||| found_list(probes.llama_cli).contains(path)
            ||| found_list(probes.mlx_generate).contains(path)
            ||| found_list(probes.colibri).contains(path)
            ||| (text::after_last(path, '/').len() > 0 && text::after_last(path, '/')[0] != '.')
        }),
{
    reveal_strlit("/");
    reveal_strlit(".lmstudio/bin/lms");
    reveal_strlit("/Applications/LM Studio.app");
    reveal_strlit("/Applications/Ollama.app");
    reveal_strlit("/usr/local/bin/ollama");
    reveal_strlit("/opt/homebrew/bin/ollama");
    reveal_strlit("Programs/Ollama/ollama.exe");
    let path = candidates(id, home, probes)->0[i];
    let apps = "/Applications"@;
    reveal_strlit("/Applications");
    reveal_strlit("/usr/local/bin");
    reveal_strlit("/opt/homebrew/bin");
    reveal_strlit("LM Studio.app");
    reveal_strlit("Ollama.app");
    reveal_strlit("ollama");
    reveal_strlit("ollama.exe");
    reveal_strlit("lms");
    reveal_strlit(".lmstudio/bin");
    reveal_strlit("Programs/Ollama");
    lemma_last_part(apps, "LM Studio.app"@);
    lemma_last_part(apps, "Ollama.app"@);
    lemma_last_part("/usr/local/bin"@, "ollama"@);
    lemma_last_part("/opt/homebrew/bin"@, "ollama"@);
    assert("/Applications/LM Studio.app"@ =~= apps + seq!['/'] + "LM Studio.app"@);
    assert("/Applications/Ollama.app"@ =~= apps + seq!['/'] + "Ollama.app"@);
    assert("/usr/local/bin/ollama"@ =~= "/usr/local/bin"@ + seq!['/'] + "ollama"@);
    assert("/opt/homebrew/bin/ollama"@ =~= "/opt/homebrew/bin"@ + seq!['/'] + "ollama"@);
    assert(".lmstudio/bin/lms"@ =~= ".lmstudio/bin"@ + seq!['/'] + "lms"@);
    assert("Programs/Ollama/ollama.exe"@ =~= "Programs/Ollama"@ + seq!['/'] + "ollama.exe"@);
    if let Some(h) = home {
        let head = text::under(h, ".lmstudio/bin"@);
        lemma_last_part(head, "lms"@);
        assert(text::under(h, ".lmstudio/bin/lms"@) =~= head + seq!['/'] + "lms"@);
    }
    if let Some(d) = probes.local_app_data {
        let head = text::under(d@, "Programs/Ollama"@);
        lemma_last_part(head, "ollama.exe"@);
        assert(text::under(d@, "Programs/Ollama/ollama.exe"@) =~= head + seq!['/']
            + "ollama.exe"@);
    }
    lemma_found(probes.ollama);
    lemma_found(probes.llama_server);
    lemma_found(probes.llama_cli);
    lemma_found(probes.mlx_generate);
    lemma_found(probes.colibri);
}

proof fn lemma_found(probe: Option<String>)
    ensures
        probe matches Some(p) ==> found_list(probe).contains(p@),
{
    if let Some(p) = probe {
        assert(found_list(probe)[0] == p@);
    }
}

/// The id of an engine is among those found on this machine.
proof fn lemma_present_by_id(e: Engine, installed: Seq<Installed>)
    ensures
        is_present(e, installed) <==> exists|i: int|
            0 <= i < installed.len() && (#[trigger] installed[i]).engine.id@ == e.id@,
{
}

/// The first of several engines that is present: none before it is.
proof fn lemma_first_present_is_first(engines: Seq<Engine>, installed: Seq<Installed>) -> (m: int)
    requires
        first_present(engines, installed) is Some,
    ensures
        0 <= m < engines.len(),
        first_present(engines, installed) == Some(engines[m]),
        is_present(engines[m], installed),
        forall|i: int| 0 <= i < m ==> !is_present(#[trigger] engines[i], installed),
    decreases engines.len(),
{
    if is_present(engines.first(), installed) {
        0
    } else {
        let rest = engines.drop_first();
        let m = lemma_first_present_is_first(rest, installed);
        assert forall|i: int| 0 <= i < m + 1 implies !is_present(
            #[trigger] engines[i],
            installed,
        ) by {
            if i > 0 {
                assert(engines[i] == rest[i - 1]);
            }
        }
        m + 1
    }
}

/// The registry's order decides. Nothing that stands before the recommended engine in the registry
/// would have done: where the recommended one is installed, none before it both reads the format,
/// copes with the size and is installed; where it is not, none before it reads the format and copes,
/// and none anywhere that does is installed. An engine copes unless the model takes six fifths of
/// the usable memory or more; then it copes only if it streams.
pub proof fn lemma_the_first_suitable_engine_is_recommended(
    model_bytes: u64,
    format: Format,
    usable: u64,
    installed: Seq<Installed>,
    k: int,
    j: int,
)
    requires
        0 <= k < registry().len(),
        routed(model_bytes, format, usable, installed).engine == Some(registry()[k]),
        0 <= j < registry().len(),
    ensures
        ({
            let suits = |e: Engine|
                {
                    &&& match format {
                        Format::Gguf => e.formats.gguf,
                        Format::Mlx => e.formats.mlx,
                        Format::Safetensors => e.formats.safetensors,
                    }
                    &&& 5 * model_bytes >= 6 * usable ==> e.oversized == Oversized::Streams
                };
            let here = |e: Engine|
                exists|i: int|
                    0 <= i < installed.len() && (#[trigger] installed[i]).engine.id@ == e.id@;
            &&& suits(registry()[k])
            &&& here(registry()[k]) ==> (j < k ==> !(suits(registry()[j]) && here(registry()[j])))
            &&& !here(registry()[k]) ==> (j < k ==> !suits(registry()[j])) && !(suits(
                registry()[j],
            ) && here(registry()[j]))
            &&& routed(model_bytes, format, usable, installed).installed <==> here(registry()[k])
        }),
{
    let regime = regime_of(model_bytes, usable);
    let all = registry();
    let keep = |e: Engine| is_suitable(e, format, regime);
    let suitable = suitable_engines(format, regime);
    let at = order::lemma_filter_positions(all, keep);
    lemma_registry_is_complete(None, arbitrary());
    lemma_first_present(suitable, installed);
    lemma_present_by_id(all[k], installed);
    lemma_present_by_id(all[j], installed);
    let m = if first_present(suitable, installed) is Some {
        lemma_first_present_is_first(suitable, installed)
    } else {
        0
    };
    assert(suitable.len() > 0);
    assert(suitable[m] == all[at[m]]);
    assert(at[m] == k) by {
        if at[m] < k {
            assert(all[at[m]].id@ != all[k].id@);
        } else if at[m] > k {
            assert(all[k].id@ != all[at[m]].id@);
        }
    }
    assert(keep(all[at[m]]));
    if keep(all[j]) {
        assert(at.contains(j));
        let i = choose|i: int| 0 <= i < at.len() && at[i] == j;
        assert(suitable[i] == all[at[i]]);
        if j < k && i > m {
            assert(at[m] < at[i]);
        }
    }
}

/// An engine is recommended exactly where one of the registry reads the format and copes with the
/// size, and it is one of the registry.
pub proof fn lemma_recommends_an_engine_wherever_one_suits(
    model_bytes: u64,
    format: Format,
    usable: u64,
    installed: Seq<Installed>,
)
    ensures
        ({
            let suits = |e: Engine|
                {
                    &&& match format {
                        Format::Gguf => e.formats.gguf,
                        Format::Mlx => e.formats.mlx,
                        Format::Safetensors => e.formats.safetensors,
                    }
                    &&& 5 * model_bytes >= 6 * usable ==> e.oversized == Oversized::Streams
                };
            let r = routed(model_bytes, format, usable, installed).engine;
            &&& r is Some <==> exists|k: int| 0 <= k < registry().len() && suits(
                #[trigger] registry()[k],
            )
            &&& r matches Some(e) ==> registry().contains(e)
        }),
{
    let regime = regime_of(model_bytes, usable);
    let all = registry();
    let keep = |e: Engine| is_suitable(e, format, regime);
    let suitable = suitable_engines(format, regime);
    let at = order::lemma_filter_positions(all, keep);
    lemma_first_present(suitable, installed);
    let suits = |e: Engine|
        {
            &&& match format {
                Format::Gguf => e.formats.gguf,
                Format::Mlx => e.formats.mlx,
                Format::Safetensors => e.formats.safetensors,
            }
            &&& 5 * model_bytes >= 6 * usable ==> e.oversized == Oversized::Streams
        };
    assert forall|e: Engine| #[trigger] keep(e) == suits(e) by {}
    if let Some(e) = routed(model_bytes, format, usable, installed).engine {
        lemma_never_recommends_what_thrashes(model_bytes, format, usable, installed);
        let k = choose|k: int| 0 <= k < all.len() && all[k] == e;
        assert(suits(all[k]));
    }
    if exists|k: int| 0 <= k < all.len() && suits(#[trigger] all[k]) {
        let k = choose|k: int| 0 <= k < all.len() && suits(#[trigger] all[k]);
        assert(keep(all[k]));
        assert(at.contains(k));
        assert(suitable.len() > 0);
    }
}

/// What to avoid is named in full: of the registry, in its order, every installed engine that reads
/// the format and does not stream, wherever the model takes six fifths of the usable memory or
/// more; and nothing otherwise. Each with what it would do.
pub proof fn lemma_every_engine_to_avoid_is_named(
    model_bytes: u64,
    format: Format,
    usable: u64,
    installed: Seq<Installed>,
)
    ensures
        ({
            let avoid = routed(model_bytes, format, usable, installed).avoid;
            let bad = |e: Engine|
                {
                    &&& 5 * model_bytes >= 6 * usable
                    &&& match format {
                        Format::Gguf => e.formats.gguf,
                        Format::Mlx => e.formats.mlx,
                        Format::Safetensors => e.formats.safetensors,
                    }
                    &&& e.oversized != Oversized::Streams
                    &&& exists|i: int|
                        0 <= i < installed.len() && (#[trigger] installed[i]).engine.id@ == e.id@
                };
            &&& forall|k: int|
                0 <= k < registry().len() && bad(#[trigger] registry()[k]) ==> exists|i: int|
                    0 <= i < avoid.len() && (#[trigger] avoid[i]).0 == registry()[k]
            &&& forall|i: int|
                0 <= i < avoid.len() ==> {
                    let (e, why) = #[trigger] avoid[i];
                    &&& registry().contains(e)
                    &&& bad(e)
                    &&& e.oversized == Oversized::Refuses ==> why@
                        == "will refuse to load a model this size"@
                    &&& e.oversized == Oversized::Thrashes ==> why@
                        == "will load, then page against the OS and slow to a crawl"@
                }
            &&& order::is_part_of(avoid.map_values(|x: (Engine, &'static str)| x.0), registry())
        }),
{
    let all = registry();
    let avoid = routed(model_bytes, format, usable, installed).avoid;
    let keep = |e: Engine|
        e.formats.has(format) && e.oversized != Oversized::Streams && is_present(e, installed);
    let names = avoid.map_values(|x: (Engine, &'static str)| x.0);
    if regime_of(model_bytes, usable) == Regime::Oversized {
        let at = order::lemma_filter_positions(all, keep);
        let kept = all.filter(keep);
        assert(names =~= kept);
        assert(order::picks(names, all, at));
        assert forall|k: int| 0 <= k < all.len() && keep(#[trigger] all[k]) implies exists|i: int|
            0 <= i < avoid.len() && (#[trigger] avoid[i]).0 == all[k] by {
            let i = choose|i: int| 0 <= i < at.len() && at[i] == k;
            assert(avoid[i].0 == kept[i]);
        }
        assert forall|i: int| 0 <= i < avoid.len() implies all.contains((#[trigger] avoid[i]).0)
            && keep(avoid[i].0) by {
            assert(kept[i] == all[at[i]]);
        }
    } else {
        assert(order::picks(names, all, Seq::empty()));
    }
}

/// What else would do is named in full: of the registry, in its order, every engine that reads the
/// format and copes with the size, is not installed, and is not the recommended one.
pub proof fn lemma_every_alternative_is_named(
    model_bytes: u64,
    format: Format,
    usable: u64,
    installed: Seq<Installed>,
)
    ensures
        ({
            let r = routed(model_bytes, format, usable, installed);
            let alternative = |e: Engine|
                {
                    &&& match format {
                        Format::Gguf => e.formats.gguf,
                        Format::Mlx => e.formats.mlx,
                        Format::Safetensors => e.formats.safetensors,
                    }
                    &&& 5 * model_bytes >= 6 * usable ==> e.oversized == Oversized::Streams
                    &&& !exists|i: int|
                        0 <= i < installed.len() && (#[trigger] installed[i]).engine.id@ == e.id@
                    &&& r.engine != Some(e)
                };
            &&& forall|k: int|
                0 <= k < registry().len() ==> (alternative(#[trigger] registry()[k])
                    <==> r.also_suitable.contains(registry()[k]))
            &&& forall|i: int|
                0 <= i < r.also_suitable.len() ==> registry().contains(
                    #[trigger] r.also_suitable[i],
                )
            &&& order::is_part_of(r.also_suitable, registry())
        }),
{
    let all = registry();
    let regime = regime_of(model_bytes, usable);
    let r = routed(model_bytes, format, usable, installed);
    let chosen = r.engine;
    let fit = |e: Engine| is_suitable(e, format, regime);
    let keep = |e: Engine|
        !is_present(e, installed) && (chosen matches Some(c) ==> c.id@ != e.id@);
    let suitable = suitable_engines(format, regime);
    let first = order::lemma_filter_positions(all, fit);
    let second = order::lemma_filter_positions(suitable, keep);
    lemma_registry_is_complete(None, arbitrary());
    lemma_recommends_an_engine_wherever_one_suits(model_bytes, format, usable, installed);
    let at = Seq::new(second.len(), |i: int| first[second[i]]);
    assert forall|i: int| 0 <= i < at.len() implies 0 <= #[trigger] at[i] < all.len()
        && r.also_suitable[i] == all[at[i]] by {
        assert(r.also_suitable[i] == suitable[second[i]]);
        assert(suitable[second[i]] == all[first[second[i]]]);
    }
    assert forall|i: int, j: int| 0 <= i < j < at.len() implies #[trigger] at[i]
        < #[trigger] at[j] by {
        assert(second[i] < second[j]);
    }
    assert(order::picks(r.also_suitable, all, at));
    assert forall|k: int| 0 <= k < all.len() implies ((fit(#[trigger] all[k]) && !is_present(
        all[k],
        installed,
    ) && chosen != Some(all[k])) <==> r.also_suitable.contains(all[k])) by {
        if fit(all[k]) && !is_present(all[k], installed) && chosen != Some(all[k]) {
            let i = choose|i: int| 0 <= i < first.len() && first[i] == k;
            assert(suitable[i] == all[k]);
            if let Some(c) = chosen {
                let m = choose|m: int| 0 <= m < all.len() && all[m] == c;
                if m < k {
                    assert(all[m].id@ != all[k].id@);
                } else {
                    assert(all[k].id@ != all[m].id@);
                }
            }
            assert(keep(suitable[i]));
            let x = choose|x: int| 0 <= x < second.len() && second[x] == i;
            assert(r.also_suitable[x] == all[k]);
        }
        if r.also_suitable.contains(all[k]) {
            let x = choose|x: int| 0 <= x < r.also_suitable.len() && r.also_suitable[x] == all[k];
            assert(keep(suitable[second[x]]));
            assert(fit(all[first[second[x]]]));
        }
    }
    assert forall|i: int| 0 <= i < r.also_suitable.len() implies all.contains(
        #[trigger] r.also_suitable[i],
    ) by {
        assert(r.also_suitable[i] == all[at[i]]);
    }
}

/// A model fits below four fifths of the usable memory, is too large from six fifths on, and is
/// tight in between.
pub proof fn lemma_regimes_by_fifths(model_bytes: u64, usable: u64)
    ensures
        regime_of(model_bytes, usable) == Regime::Fits <==> 5 * model_bytes < 4 * usable,
        regime_of(model_bytes, usable) == Regime::Tight <==> 4 * usable <= 5 * model_bytes < 6
            * usable,
        regime_of(model_bytes, usable) == Regime::Oversized <==> 6 * usable <= 5 * model_bytes,
{
}

/// The engine that is recommended is named with what it is good at; and where there is none, it is
/// said whether the size or the format is the reason.
pub proof fn lemma_reasons_speak_of_the_case(
    model_bytes: u64,
    format: Format,
    usable: u64,
    installed: Seq<Installed>,
)
    ensures
        ({
            let r = routed(model_bytes, format, usable, installed);
            match r.engine {
                Some(e) => {
                    &&& 5 * model_bytes < 4 * usable ==> r.reason == "it fits in memory, and "@
                        + e.sweet_spot@
                    &&& 4 * usable <= 5 * model_bytes < 6 * usable ==> r.reason
                        == "it only just fits — "@ + e.sweet_spot@
                        + " — so expect trouble once the KV cache grows"@
                    &&& 6 * usable <= 5 * model_bytes ==> r.reason == "it exceeds memory, and "@
                        + e.name@ + " is the one that "@ + e.sweet_spot@
                },
                None => {
                    &&& 5 * model_bytes < 6 * usable ==> r.reason
                        == "no known engine reads this format"@
                    &&& 6 * usable <= 5 * model_bytes ==> r.reason == "at "@ + gib_text(
                        model_bytes as nat,
                    )
                        + " GiB this exceeds what the machine can hold, and no installed engine streams weights from disk"@
                },
            }
        }),
{
}

/// A size is shown to the nearest tenth of a GiB.
pub proof fn lemma_tenths_are_nearest(bytes: nat)
    ensures
        20 * bytes <= (2 * gib_tenths(bytes) + 1) * 0x4000_0000,
        20 * bytes >= (2 * gib_tenths(bytes) - 1) * 0x4000_0000,
{
    let n = bytes * 10;
    let g = 0x4000_0000nat;
    assert(GIB as nat == g);
    assert(n == g * (n / g) + n % g && 0 <= n % g < g) by (nonlinear_arith)
        requires
            g > 0,
    ;
}

/// Which engines there are, in which order, what they read, and what they do with a model that is
/// too large.
pub proof fn lemma_registry_rows()
    ensures
        registry().len() == 5,
        registry()[0].id@ == "lm-studio"@ && registry()[1].id@ == "ollama"@ && registry()[2].id@
            == "llama.cpp"@ && registry()[3].id@ == "mlx"@ && registry()[4].id@ == "colibri"@,
        forall|k: int|
            0 <= k < 5 ==> ((#[trigger] registry()[k]).formats.gguf <==> k != 3),
        forall|k: int|
            0 <= k < 5 ==> ((#[trigger] registry()[k]).formats.mlx <==> k == 0 || k == 3),
        forall|k: int|
            0 <= k < 5 ==> ((#[trigger] registry()[k]).formats.safetensors <==> k == 3),
        forall|k: int|
            0 <= k < 5 ==> ((#[trigger] registry()[k]).oversized == Oversized::Streams <==> k == 4),
        forall|k: int|
            0 <= k < 5 ==> ((#[trigger] registry()[k]).oversized == Oversized::Refuses <==> k == 3),
{
}

/// A path that exists is found, and the first of them: everything before it does not exist.
pub proof fn lemma_the_first_path_there_is_found(paths: Seq<Seq<char>>, there: Seq<bool>)
    requires
        paths.len() == there.len(),
    ensures
        match first_existing(paths, there) {
            Some(p) => exists|i: int|
                {
                    &&& 0 <= i < paths.len()
                    &&& #[trigger] paths[i] == p
                    &&& there[i]
                    &&& forall|k: int| 0 <= k < i ==> !#[trigger] there[k]
                },
            None => forall|i: int| 0 <= i < there.len() ==> !#[trigger] there[i],
        },
    decreases paths.len(),
{
    if paths.len() > 0 {
        if there[0] {
            assert(paths[0] == paths.first());
        } else {
            let (ps, ts) = (paths.drop_first(), there.drop_first());
            lemma_the_first_path_there_is_found(ps, ts);
            match first_existing(ps, ts) {
                Some(p) => {
                    let i = choose|i: int|
                        {
                            &&& 0 <= i < ps.len()
                            &&& #[trigger] ps[i] == p
                            &&& ts[i]
                            &&& forall|k: int| 0 <= k < i ==> !#[trigger] ts[k]
                        };
                    assert(paths[i + 1] == p);
                    assert(there[i + 1] == ts[i]);
                    assert forall|k: int| 0 <= k < i + 1 implies !#[trigger] there[k] by {
                        if k > 0 {
                            assert(there[k] == ts[k - 1]);
                        }
                    }
                },
                None => {
                    assert forall|k: int| 0 <= k < there.len() implies !#[trigger] there[k] by {
                        if k > 0 {
                            assert(there[k] == ts[k - 1]);
                        }
                    }
                },
            }
        }
    }
}

/// A program is looked for in every directory of `PATH`, in their order, under its name and then
/// under its name with `.exe`.
pub proof fn lemma_programs_are_looked_for_everywhere(
    dirs: Seq<Seq<char>>,
    bin: Seq<char>,
    i: int,
)
    requires
        0 <= i < dirs.len(),
    ensures
        program_places(dirs, bin).len() == 2 * dirs.len(),
        program_places(dirs, bin)[2 * i] == text::under(dirs[i], bin),
        program_places(dirs, bin)[2 * i + 1] == text::under(dirs[i], bin + ".exe"@),
    decreases dirs.len(),
{
    let rest = dirs.drop_last();
    if rest.len() == 0 {
        assert(program_places(rest, bin).len() == 0);
    } else if i < rest.len() {
        lemma_programs_are_looked_for_everywhere(rest, bin, i);
    } else {
        lemma_programs_are_looked_for_everywhere(rest, bin, 0);
    }
}

/// Where engines are looked for: LM Studio under the home directory, then as an application;
/// Ollama where it was found on `PATH`, then where installers put it; llama.cpp by its server,
/// then by its command line; the others where they were found. Nothing else has a rule.
pub proof fn lemma_where_engines_are_looked_for(
    id: Seq<char>,
    home: Option<Seq<char>>,
    probes: Probes,
)
    ensures
        candidates("lm-studio"@, home, probes) matches Some(paths) && {
            &&& paths.last() == "/Applications/LM Studio.app"@
            &&& home matches Some(h) ==> paths == seq![
                text::under(h, ".lmstudio/bin/lms"@),
                "/Applications/LM Studio.app"@,
            ]
            &&& home is None ==> paths.len() == 1
        },
        candidates("ollama"@, home, probes) matches Some(paths) && {
            &&& probes.ollama matches Some(p) ==> paths.first() == p@
            &&& paths.contains("/Applications/Ollama.app"@)
            &&& paths.contains("/usr/local/bin/ollama"@)
            &&& paths.contains("/opt/homebrew/bin/ollama"@)
            &&& probes.local_app_data matches Some(d) ==> paths.last() == text::under(
                d@,
                "Programs/Ollama/ollama.exe"@,
            )
        },
        candidates("llama.cpp"@, home, probes) matches Some(paths) && {
            &&& probes.llama_server matches Some(p) ==> paths.len() > 0 && paths.first() == p@
            &&& probes.llama_cli matches Some(p) ==> paths.len() > 0 && paths.last() == p@
            &&& probes.llama_server is None && probes.llama_cli is None ==> paths.len() == 0
            &&& paths.len() <= 2
        },
        candidates("mlx"@, home, probes) == Some(found_list(probes.mlx_generate)),
        candidates("colibri"@, home, probes) == Some(found_list(probes.colibri)),
        id != "lm-studio"@ && id != "ollama"@ && id != "llama.cpp"@ && id != "mlx"@ && id
            != "colibri"@ ==> candidates(id, home, probes) is None,
{
    reveal_strlit("lm-studio");
    reveal_strlit("ollama");
    reveal_strlit("llama.cpp");
    reveal_strlit("mlx");
    reveal_strlit("colibri");
    assert("lm-studio"@.len() == 9 && "ollama"@.len() == 6 && "llama.cpp"@.len() == 9 && "mlx"@.len()
        == 3 && "colibri"@.len() == 7);
    assert("lm-studio"@[1] == 'm' && "llama.cpp"@[1] == 'l');
    let lm = candidates("lm-studio"@, home, probes)->0;
    if let Some(h) = home {
        assert(lm =~= seq![
            text::under(h, ".lmstudio/bin/lms"@),
            "/Applications/LM Studio.app"@,
        ]);
    }
    let paths = candidates("ollama"@, home, probes)->0;
    let n = found_list(probes.ollama).len() as int;
    assert(paths[n] == "/Applications/Ollama.app"@);
    assert(paths[n + 1] == "/usr/local/bin/ollama"@);
    assert(paths[n + 2] == "/opt/homebrew/bin/ollama"@);
}

/// What a probe found is looked at; what it did not find is not.
pub proof fn lemma_probes_are_looked_at(probe: Option<String>)
    ensures
        probe is None ==> found_list(probe).len() == 0,
        probe matches Some(p) ==> found_list(probe) == seq![p@],
{
}

/// A size is shown as whole GiB, a point and one digit.
pub proof fn lemma_sizes_have_one_decimal(bytes: nat)
    ensures
        gib_text(bytes).len() >= 3,
        gib_text(bytes)[gib_text(bytes).len() - 2] == '.',
        '0' <= gib_text(bytes).last() <= '9',
        10 * text::digits_value(gib_text(bytes).take(gib_text(bytes).len() - 2)) + (gib_text(
            bytes,
        ).last() as int - 48) == gib_tenths(bytes),
{
    reveal_strlit(".");
    let t = gib_tenths(bytes);
    let whole = text::decimal(t / 10);
    let tenth = text::decimal(t % 10);
    text::lemma_decimal_reads_back(t / 10);
    text::lemma_decimal_reads_back(t % 10);
    assert(tenth.len() == 1);
    let all = gib_text(bytes);
    assert(all =~= whole.push('.') + tenth);
    assert(all.take(all.len() - 2) =~= whole);
    assert(all.last() == tenth[0]);
    assert(text::is_digit(tenth[0]));
}

/// What the engines are called, and where they are had.
pub proof fn lemma_registry_names()
    ensures
        registry()[0].name@ == "LM Studio"@ && registry()[1].name@ == "Ollama"@
            && registry()[2].name@ == "llama.cpp"@ && registry()[3].name@ == "mlx-lm"@
            && registry()[4].name@ == "colibri"@,
        registry()[0].install@ == "https://lmstudio.ai"@,
        registry()[1].install@ == "https://ollama.com/download"@,
        registry()[2].install@ == "brew install llama.cpp"@,
        registry()[3].install@ == "pip install mlx-lm"@,
        registry()[4].install@ == "https://github.com/JustVugg/colibri"@,
{
}

} // verus!
