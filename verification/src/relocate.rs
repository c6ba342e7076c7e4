//! Stage six: relocation. Installed files carry the build-time
//! placeholder paths of the bottle; this stage rewrites them to the
//! run's concrete paths. Object files are patched field by field,
//! preserving each field's capacity — overflow is an error, never a
//! silent truncation. Everything else that is readable text is
//! rewritten wholesale. Reading and writing the files happens outside
//! the library; the rewriting itself is verified here.

use vstd::prelude::*;
use crate::error::Error;
use crate::package::{Package, PackageRegistry, RelocateMode, Stage};
use crate::text::{
    contains_seq, lemma_replace_all_inserts_replacement, lemma_replace_all_removes_pattern,
    replace_all, spec_replace_all,
};

verus! {

/// One placeholder and the concrete path that replaces it.
#[derive(Debug, Clone)]
pub struct RelocationEntry {
    pub placeholder: Vec<u8>,
    pub replacement: Vec<u8>,
}

/// The placeholder-to-path map derived once from the configuration.
#[derive(Debug, Clone)]
pub struct RelocationPattern {
    pub entries: Vec<RelocationEntry>,
}

impl RelocationPattern {
    /// Placeholders are never empty.
    pub open spec fn wf(self) -> bool {
        forall|i: int|
            0 <= i < self.entries@.len() ==> (#[trigger] self.entries@[i]).placeholder@.len() >= 1
    }
}

/// Text after every pair of the pattern has been applied, in order.
pub open spec fn spec_relocate_text(text: Seq<u8>, pairs: Seq<RelocationEntry>) -> Seq<u8>
    decreases pairs.len(),
{
    if pairs.len() == 0 {
        text
    } else {
        spec_relocate_text(
            spec_replace_all(text, pairs[0].placeholder@, pairs[0].replacement@),
            pairs.skip(1),
        )
    }
}

/// Did any pair of the pattern change the text along the way?
pub open spec fn spec_relocate_changed(text: Seq<u8>, pairs: Seq<RelocationEntry>) -> bool
    decreases pairs.len(),
{
    if pairs.len() == 0 {
        false
    } else {
        contains_seq(text, pairs[0].placeholder@) || spec_relocate_changed(
            spec_replace_all(text, pairs[0].placeholder@, pairs[0].replacement@),
            pairs.skip(1),
        )
    }
}

impl RelocationPattern {
    /// Substitute every placeholder occurrence; `Some` exactly when
    /// something changed, as the relocation engine records only files
    /// it actually rewrote.
    pub fn replace_text(&self, text: &Vec<u8>) -> (r: Option<Vec<u8>>)
        requires
            self.wf(),
        ensures
            match r {
                Some(t) => spec_relocate_changed(text@, self.entries@) && t@ == spec_relocate_text(
                    text@,
                    self.entries@,
                ),
                None => !spec_relocate_changed(text@, self.entries@),
            },
    {
        let n: usize = self.entries.len();
        let mut cur: Vec<u8> = text.clone();
        let mut changed = false;
        let mut i: usize = 0;
        proof {
            assert(cur@ == text@) by {
                assert(cur@ =~= text@);
            }
            assert(self.entries@.skip(0) =~= self.entries@);
        }
        while i < n
            invariant
                i <= n,
                n == self.entries@.len(),
                self.wf(),
                spec_relocate_text(text@, self.entries@) == spec_relocate_text(
                    cur@,
                    self.entries@.skip(i as int),
                ),
                spec_relocate_changed(text@, self.entries@) == (changed || spec_relocate_changed(
                    cur@,
                    self.entries@.skip(i as int),
                )),
            decreases n - i,
        {
            proof {
                assert(self.entries@.skip(i as int)[0] == self.entries@[i as int]);
            }
            let (next, hit) = replace_all(
                &cur,
                &self.entries[i].placeholder,
                &self.entries[i].replacement,
            );
            proof {
                assert(self.entries@.skip(i as int).skip(1) =~= self.entries@.skip(i + 1));
            }
            changed = changed || hit;
            cur = next;
            i += 1;
        }
        proof {
            assert(self.entries@.skip(n as int).len() == 0);
        }
        if changed {
            Some(cur)
        } else {
            None
        }
    }
}

/// Zero padding of the given length.
pub open spec fn spec_zeros(n: int) -> Seq<u8> {
    Seq::new(n as nat, |i: int| 0u8)
}

/// One path-bearing field of an object file: its current bytes and the
/// capacity the format reserves for it.
#[derive(Debug, Clone)]
pub struct BinaryField {
    pub data: Vec<u8>,
    pub capacity: usize,
}

/// Patch one path-bearing field, preserving its capacity: the
/// substituted bytes padded with zeros (and whether anything
/// changed), or an error when they no longer fit — never a silent
/// truncation.
pub fn patch_path_field(field: &BinaryField, pattern: &RelocationPattern) -> (r: Result<
    (Vec<u8>, bool),
    (),
>)
    requires
        pattern.wf(),
    ensures
        match r {
            Ok(v) => spec_relocate_text(field.data@, pattern.entries@).len()
                <= field.capacity as int && v.0@ == spec_relocate_text(
                field.data@,
                pattern.entries@,
            ) + spec_zeros(
                field.capacity - spec_relocate_text(field.data@, pattern.entries@).len(),
            ) && v.0@.len() == field.capacity && v.1 == spec_relocate_changed(
                field.data@,
                pattern.entries@,
            ),
            Err(_) => spec_relocate_text(field.data@, pattern.entries@).len()
                > field.capacity as int,
        },
{
    let (replaced, hit) = match pattern.replace_text(&field.data) {
        Some(t) => (t, true),
        None => (field.data.clone(), false),
    };
    proof {
        assert(replaced@ == spec_relocate_text(field.data@, pattern.entries@)) by {
            if !spec_relocate_changed(field.data@, pattern.entries@) {
                lemma_relocate_unchanged_id(field.data@, pattern.entries@);
                assert(replaced@ =~= field.data@);
            }
        }
    }
    if replaced.len() > field.capacity {
        return Err(());
    }
    let mut out = replaced;
    let ghost base = out@;
    let cap: usize = field.capacity;
    while out.len() < cap
        invariant
            base.len() <= cap,
            base.len() <= out@.len() <= cap,
            out@ == base + spec_zeros(out@.len() - base.len()),
        decreases cap - out@.len(),
    {
        out.push(0u8);
        proof {
            assert(out@ =~= base + spec_zeros(out@.len() - base.len()));
        }
    }
    Ok((out, hit))
}

/// What the filesystem reported for one member file.
#[derive(Debug, Clone)]
pub enum FileInput {
    /// Not found under the cellar: logged outside, skipped here.
    Missing,
    /// A symbolic link: never rewritten.
    Symlink,
    /// Parsed as an object file; its path-bearing fields.
    Binary { fields: Vec<BinaryField> },
    /// Readable as text.
    Text { content: Vec<u8> },
    /// Neither object file nor text: left untouched.
    Other,
    /// Reading it failed: fatal to this package's relocation stage.
    IoError,
}

/// What to write back for one member file.
#[derive(Debug, Clone)]
pub enum FileAction {
    /// Leave the file as it is.
    Keep,
    /// Rewrite the object file's path-bearing fields with these bytes,
    /// in field order.
    WriteBinary { fields: Vec<Vec<u8>> },
    /// Rewrite the whole file with this text.
    WriteText { content: Vec<u8> },
}

/// This file stops the package's relocation: unreadable, or a patched
/// field no longer fits its capacity.
pub open spec fn spec_file_fatal(inp: FileInput, pairs: Seq<RelocationEntry>) -> bool {
    match inp {
        FileInput::IoError => true,
        FileInput::Binary { fields } => exists|k: int|
            0 <= k < fields@.len() && spec_relocate_text((#[trigger] fields@[k]).data@, pairs).len()
                > fields@[k].capacity as int,
        _ => false,
    }
}

/// This file holds at least one placeholder occurrence.
pub open spec fn spec_file_changed(inp: FileInput, pairs: Seq<RelocationEntry>) -> bool {
    match inp {
        FileInput::Binary { fields } => exists|k: int|
            0 <= k < fields@.len() && spec_relocate_changed((#[trigger] fields@[k]).data@, pairs),
        FileInput::Text { content } => spec_relocate_changed(content@, pairs),
        _ => false,
    }
}

/// What the returned action must look like for one file.
pub open spec fn spec_action_rel(inp: FileInput, pairs: Seq<RelocationEntry>, act: FileAction) -> bool {
    if spec_file_changed(inp, pairs) {
        match inp {
            FileInput::Binary { fields } => act matches FileAction::WriteBinary { fields: out }
                && out@.len() == fields@.len() && (forall|k: int|
                0 <= k < fields@.len() ==> (#[trigger] out@[k])@ == spec_relocate_text(
                    fields@[k].data@,
                    pairs,
                ) + spec_zeros(
                    fields@[k].capacity - spec_relocate_text(fields@[k].data@, pairs).len(),
                )),
            FileInput::Text { content } => act matches FileAction::WriteText { content: c } && c@
                == spec_relocate_text(content@, pairs),
            _ => act is Keep,
        }
    } else {
        act is Keep
    }
}

/// Relocate one member file: decide what, if anything, to write back.
#[verifier::loop_isolation(false)]
pub fn relocate_file(pattern: &RelocationPattern, inp: &FileInput) -> (r: Result<FileAction, ()>)
    requires
        pattern.wf(),
    ensures
        match r {
            Ok(act) => !spec_file_fatal(*inp, pattern.entries@) && spec_action_rel(
                *inp,
                pattern.entries@,
                act,
            ),
            Err(_) => spec_file_fatal(*inp, pattern.entries@),
        },
{
    match inp {
        FileInput::Binary { fields } => {
            let n: usize = fields.len();
            let mut outs: Vec<Vec<u8>> = Vec::new();
            let mut changed = false;
            let mut k: usize = 0;
            while k < n
                invariant
                    k <= n,
                    n == fields@.len(),
                    pattern.wf(),
                    outs@.len() == k,
                    forall|j: int|
                        0 <= j < k ==> spec_relocate_text(fields@[j].data@, pattern.entries@).len()
                            <= fields@[j].capacity as int,
                    forall|j: int|
                        0 <= j < k ==> (#[trigger] outs@[j])@ == spec_relocate_text(
                            fields@[j].data@,
                            pattern.entries@,
                        ) + spec_zeros(
                            fields@[j].capacity - spec_relocate_text(
                                fields@[j].data@,
                                pattern.entries@,
                            ).len(),
                        ),
                    changed == exists|j: int|
                        0 <= j < k && spec_relocate_changed(
                            (#[trigger] fields@[j]).data@,
                            pattern.entries@,
                        ),
                decreases n - k,
            {
                match patch_path_field(&fields[k], pattern) {
                    Ok((v, hit)) => {
                        outs.push(v);
                        changed = changed || hit;
                    },
                    Err(()) => {
                        proof {
                            assert((k as int) < fields@.len() && spec_relocate_text(
                                (#[trigger] fields@[k as int]).data@,
                                pattern.entries@,
                            ).len() > fields@[k as int].capacity as int);
                            assert(spec_file_fatal(*inp, pattern.entries@));
                        }
                        return Err(());
                    },
                }
                k += 1;
            }
            if changed {
                Ok(FileAction::WriteBinary { fields: outs })
            } else {
                Ok(FileAction::Keep)
            }
        },
        FileInput::Text { content } => {
            match pattern.replace_text(content) {
                Some(t) => Ok(FileAction::WriteText { content: t }),
                None => Ok(FileAction::Keep),
            }
        },
        FileInput::Missing => Ok(FileAction::Keep),
        FileInput::Symlink => Ok(FileAction::Keep),
        FileInput::Other => Ok(FileAction::Keep),
        FileInput::IoError => Err(()),
    }
}

/// The member files that were rewritten, in member order: binaries
/// when `bin`, text files otherwise.
pub open spec fn spec_patched_list(
    files: Seq<String>,
    inputs: Seq<FileInput>,
    pairs: Seq<RelocationEntry>,
    bin: bool,
) -> Seq<String>
    decreases inputs.len(),
{
    if inputs.len() == 0 || files.len() != inputs.len() {
        Seq::<String>::empty()
    } else {
        let init = spec_patched_list(files.drop_last(), inputs.drop_last(), pairs, bin);
        let is_kind = if bin {
            inputs.last() is Binary
        } else {
            inputs.last() is Text
        };
        if is_kind && spec_file_changed(inputs.last(), pairs) {
            init.push(files.last())
        } else {
            init
        }
    }
}

/// Relation between a package before and after the relocation stage.
pub open spec fn relocated_rel(
    p: Package,
    pairs: Seq<RelocationEntry>,
    inputs: Seq<FileInput>,
    q: Package,
    actions: Seq<FileAction>,
) -> bool {
    if !(p.stage == Stage::Verified && p.spec_active()) {
        q == p && actions.len() == 0
    } else if p.relocate == Some(RelocateMode::Skip) {
        &&& keeps_rest_relocate(p, q)
        &&& q.patched_binaries == p.patched_binaries
        &&& q.patched_text == p.patched_text
        &&& q.errors@ == p.errors@
        &&& q.stage == Stage::Relocated
        &&& actions.len() == 0
    } else if exists|i: int| 0 <= i < inputs.len() && spec_file_fatal(#[trigger] inputs[i], pairs) {
        let first = choose|i: int|
            0 <= i < inputs.len() && spec_file_fatal(#[trigger] inputs[i], pairs) && (forall|j: int|
                0 <= j < i ==> !spec_file_fatal(#[trigger] inputs[j], pairs));
        &&& keeps_rest_relocate(p, q)
        &&& q.patched_binaries == p.patched_binaries
        &&& q.patched_text == p.patched_text
        &&& q.stage == p.stage
        &&& q.errors@.len() == p.errors@.len() + 1
        &&& q.errors@.subrange(0, p.errors@.len() as int) == p.errors@
        &&& (q.errors@.last() matches Error::RelocationFailed { package, file } && package@
            == p.name@ && file@ == p.files@[first]@)
        &&& actions.len() == 0
    } else {
        &&& keeps_rest_relocate(p, q)
        &&& q.errors@ == p.errors@
        &&& q.stage == Stage::Relocated
        &&& q.patched_binaries@ == spec_patched_list(p.files@, inputs, pairs, true)
        &&& q.patched_text@ == spec_patched_list(p.files@, inputs, pairs, false)
        &&& actions.len() == inputs.len()
        &&& forall|i: int|
            0 <= i < inputs.len() ==> spec_action_rel(inputs[i], pairs, #[trigger] actions[i])
    }
}

/// Fields the relocation stage never touches.
pub open spec fn keeps_rest_relocate(p: Package, q: Package) -> bool {
    &&& q.name == p.name
    &&& q.full_name == p.full_name
    &&& q.version == p.version
    &&& q.revision == p.revision
    &&& q.arch == p.arch
    &&& q.url == p.url
    &&& q.sha256 == p.sha256
    &&& q.relocate == p.relocate
    &&& q.rebuild == p.rebuild
    &&& q.size == p.size
    &&& q.download_size == p.download_size
    &&& q.package_name == p.package_name
    &&& q.keg == p.keg
    &&& q.files == p.files
    &&& q.explicit == p.explicit
    &&& q.required_by == p.required_by
    &&& q.links == p.links
}

/// Relocate one package: walk its member files (as the caller read
/// them, one input per member) and compute what to write back.
#[verifier::loop_isolation(false)]
pub fn relocate_one(p: Package, pattern: &RelocationPattern, inputs: &Vec<FileInput>) -> (r: (
    Package,
    Vec<FileAction>,
))
    requires
        pattern.wf(),
        inputs@.len() == p.files@.len(),
    ensures
        relocated_rel(p, pattern.entries@, inputs@, r.0, r.1@),
{
    let mut p = p;
    let empty: Vec<FileAction> = Vec::new();
    if !(matches!(p.stage, Stage::Verified) && p.active()) {
        return (p, empty);
    }
    if matches!(p.relocate, Some(RelocateMode::Skip)) {
        p.stage = Stage::Relocated;
        return (p, empty);
    }
    let ghost p0 = p;
    let n: usize = inputs.len();
    let mut actions: Vec<FileAction> = Vec::new();
    let mut bins: Vec<String> = Vec::new();
    let mut texts: Vec<String> = Vec::new();
    let mut i: usize = 0;
    while i < n
        invariant
            i <= n,
            n == inputs@.len(),
            n == p.files@.len(),
            pattern.wf(),
            p == p0,
            actions@.len() == i,
            forall|j: int| 0 <= j < i ==> !spec_file_fatal(#[trigger] inputs@[j], pattern.entries@),
            forall|j: int|
                0 <= j < i ==> spec_action_rel(
                    inputs@[j],
                    pattern.entries@,
                    #[trigger] actions@[j],
                ),
            bins@ == spec_patched_list(
                p.files@.take(i as int),
                inputs@.take(i as int),
                pattern.entries@,
                true,
            ),
            texts@ == spec_patched_list(
                p.files@.take(i as int),
                inputs@.take(i as int),
                pattern.entries@,
                false,
            ),
        decreases n - i,
    {
        match relocate_file(pattern, &inputs[i]) {
            Ok(act) => {
                proof {
                    let fs1 = p.files@.take(i + 1);
                    let in1 = inputs@.take(i + 1);
                    assert(fs1.drop_last() =~= p.files@.take(i as int));
                    assert(in1.drop_last() =~= inputs@.take(i as int));
                    assert(fs1.last() == p.files@[i as int]);
                    assert(in1.last() == inputs@[i as int]);
                }
                let is_bin = matches!(&inputs[i], FileInput::Binary { .. });
                let is_text = matches!(&inputs[i], FileInput::Text { .. });
                let changed = !matches!(&act, FileAction::Keep);
                proof {
                    assert(changed == spec_file_changed(inputs@[i as int], pattern.entries@)) by {
                        if spec_file_changed(inputs@[i as int], pattern.entries@) {
                            assert(!(act is Keep));
                        } else {
                            assert(act is Keep);
                        }
                    }
                }
                if is_bin && changed {
                    bins.push(p.files[i].clone());
                } else if is_text && changed {
                    texts.push(p.files[i].clone());
                }
                actions.push(act);
            },
            Err(()) => {
                let ghost e0 = p.errors@;
                proof {
                    assert(spec_file_fatal(inputs@[i as int], pattern.entries@));
                    assert(forall|j: int|
                        0 <= j < i ==> !spec_file_fatal(#[trigger] inputs@[j], pattern.entries@));
                }
                let e = Error::RelocationFailed {
                    package: p.name.clone(),
                    file: p.files[i].clone(),
                };
                p.errors.push(e);
                proof {
                    assert(p.errors@.subrange(0, e0.len() as int) =~= e0);
                    assert(exists|k: int|
                        0 <= k < inputs@.len() && spec_file_fatal(
                            #[trigger] inputs@[k],
                            pattern.entries@,
                        ) && (forall|j: int|
                            0 <= j < k ==> !spec_file_fatal(
                                #[trigger] inputs@[j],
                                pattern.entries@,
                            ))) by {
                        assert(spec_file_fatal(inputs@[i as int], pattern.entries@) && (forall|
                            j: int,
                        |
                            0 <= j < i as int ==> !spec_file_fatal(
                                #[trigger] inputs@[j],
                                pattern.entries@,
                            )));
                    }
                    let first = choose|k: int|
                        0 <= k < inputs@.len() && spec_file_fatal(
                            #[trigger] inputs@[k],
                            pattern.entries@,
                        ) && (forall|j: int|
                            0 <= j < k ==> !spec_file_fatal(#[trigger] inputs@[j], pattern.entries@));
                    assert(first == i as int) by {
                        if first < i as int {
                            assert(!spec_file_fatal(inputs@[first], pattern.entries@));
                        }
                        if first > i as int {
                            assert(!spec_file_fatal(inputs@[i as int], pattern.entries@));
                        }
                    }
                }
                proof {
                    assert(p0.stage == Stage::Verified);
                    assert(p0.spec_active());
                    assert(!(p0.relocate == Some(RelocateMode::Skip)));
                }
                let empty2: Vec<FileAction> = Vec::new();
                return (p, empty2);
            },
        }
        i += 1;
    }
    proof {
        assert(p.files@.take(n as int) =~= p.files@);
        assert(inputs@.take(n as int) =~= inputs@);
    }
    p.patched_binaries = bins;
    p.patched_text = texts;
    p.stage = Stage::Relocated;
    (p, actions)
}

/// Stage driver: relocate across the whole registry, one list of file
/// inputs per package (one input per member file), in registry order.
/// Returns what to write back, one action list per package.
pub struct Relocate {
    /// Failures of this stage live on the packages themselves.
    pub errors: Vec<Error>,
}

impl Relocate {
    pub fn run(
        &mut self,
        reg: &mut PackageRegistry,
        pattern: &RelocationPattern,
        inputs: &Vec<Vec<FileInput>>,
    ) -> (actions: Vec<Vec<FileAction>>)
        requires
            old(reg).wf(),
            pattern.wf(),
            inputs@.len() == old(reg)@.len(),
            forall|i: int|
                0 <= i < old(reg)@.len() ==> (#[trigger] inputs@[i])@.len()
                    == old(reg)@[i].files@.len(),
        ensures
            final(reg).wf(),
            final(reg)@.len() == old(reg)@.len(),
            actions@.len() == old(reg)@.len(),
            forall|i: int|
                0 <= i < old(reg)@.len() ==> relocated_rel(
                    old(reg)@[i],
                    pattern.entries@,
                    inputs@[i]@,
                    #[trigger] final(reg)@[i],
                    actions@[i]@,
                ),
            *final(self) == *old(self),
    {
        let n: usize = reg.packages.len();
        let ghost reg0 = reg@;
        let mut actions: Vec<Vec<FileAction>> = Vec::new();
        let mut i: usize = 0;
        while i < n
            invariant
                i <= n,
                n == reg@.len(),
                reg0.len() == n,
                pattern.wf(),
                inputs@.len() == n,
                forall|j: int| 0 <= j < n ==> (#[trigger] inputs@[j])@.len() == reg0[j].files@.len(),
                actions@.len() == i,
                forall|j: int| i <= j < n ==> reg@[j] == reg0[j],
                forall|j: int|
                    0 <= j < i ==> relocated_rel(
                        reg0[j],
                        pattern.entries@,
                        inputs@[j]@,
                        #[trigger] reg@[j],
                        actions@[j]@,
                    ),
                forall|j: int| 0 <= j < n ==> (#[trigger] reg@[j]).name@ == reg0[j].name@,
            decreases n - i,
        {
            let ghost before = reg@;
            let p = reg.packages.remove(i);
            let (q, acts) = relocate_one(p, pattern, &inputs[i]);
            reg.packages.insert(i, q);
            actions.push(acts);
            proof {
                assert(reg@ =~= before.update(i as int, q));
                assert(relocated_rel(
                    reg0[i as int],
                    pattern.entries@,
                    inputs@[i as int]@,
                    q,
                    actions@[i as int]@,
                ));
                assert(q.name@ == reg0[i as int].name@);
            }
            i += 1;
        }
        proof {
            assert forall|a: int, b: int| 0 <= a < b < reg@.len() implies reg@[a].name@
                != reg@[b].name@ by {
                assert(reg0[a].name@ != reg0[b].name@);
            }
            assert(reg.wf());
        }
        actions
    }
}

/// The same, at the level of the pattern the engine consumes: after
/// one pass with a single well-separated placeholder, a second
/// [`RelocationPattern::replace_text`] pass finds nothing to change.
pub proof fn lemma_second_pass_finds_nothing(text: Seq<u8>, e: RelocationEntry)
    requires
        e.placeholder@.len() >= 1,
        e.replacement@.len() >= 1,
        !e.replacement@.contains(e.placeholder@[0]),
        forall|j: int|
            1 <= j < e.placeholder@.len() ==> e.placeholder@[j] != e.replacement@[0],
    ensures
        !spec_relocate_changed(spec_relocate_text(text, seq![e]), seq![e]),
{
    reveal_with_fuel(spec_relocate_text, 2);
    reveal_with_fuel(spec_relocate_changed, 2);
    let pairs = seq![e];
    let once = spec_replace_all(text, e.placeholder@, e.replacement@);
    assert(pairs[0] == e);
    assert(pairs.skip(1).len() == 0);
    assert(spec_relocate_text(text, pairs) == once);
    lemma_replace_all_removes_pattern(text, e.placeholder@, e.replacement@);
    assert(!contains_seq(once, e.placeholder@));
}

/// A pattern that changed nothing leaves the text as it was.
proof fn lemma_relocate_unchanged_id(text: Seq<u8>, pairs: Seq<RelocationEntry>)
    requires
        !spec_relocate_changed(text, pairs),
        forall|i: int| 0 <= i < pairs.len() ==> (#[trigger] pairs[i]).placeholder@.len() >= 1,
    ensures
        spec_relocate_text(text, pairs) == text,
    decreases pairs.len(),
{
    if pairs.len() > 0 {
        lemma_no_occurrence_id(text, pairs[0].placeholder@, pairs[0].replacement@);
        assert(forall|i: int|
            0 <= i < pairs.skip(1).len() ==> (#[trigger] pairs.skip(1)[i]).placeholder@.len()
                >= 1);
        lemma_relocate_unchanged_id(text, pairs.skip(1));
    }
}

/// Replacing a pattern that does not occur changes nothing.
proof fn lemma_no_occurrence_id(text: Seq<u8>, pat: Seq<u8>, rep: Seq<u8>)
    requires
        pat.len() >= 1,
        !contains_seq(text, pat),
    ensures
        spec_replace_all(text, pat, rep) == text,
    decreases text.len(),
{
    if text.len() > 0 {
        assert(!pat.is_prefix_of(text)) by {
            if pat.is_prefix_of(text) {
                assert(text.subrange(0, pat.len() as int) =~= pat);
                assert(crate::text::occurs_at(text, pat, 0));
            }
        }
        assert(!contains_seq(text.skip(1), pat)) by {
            if contains_seq(text.skip(1), pat) {
                let i = choose|i: int| crate::text::occurs_at(text.skip(1), pat, i);
                assert(text.subrange(i + 1, i + 1 + pat.len() as int) =~= text.skip(1).subrange(
                    i,
                    i + pat.len() as int,
                ));
                assert(crate::text::occurs_at(text, pat, i + 1));
            }
        }
        lemma_no_occurrence_id(text.skip(1), pat, rep);
        assert(spec_replace_all(text, pat, rep) =~= text);
    }
}

/// After one relocation pass with a well-separated placeholder, a
/// second pass finds nothing: the placeholder is gone from the
/// rewritten text, and if it occurred at all, the concrete path is
/// now present. "Well separated" means the placeholder opens with a
/// byte the concrete path never contains — the marker byte of the
/// placeholder syntax — and the path's first byte appears in the
/// placeholder only, if at all, at its start.
pub proof fn lemma_relocation_idempotent(text: Seq<u8>, placeholder: Seq<u8>, replacement: Seq<u8>)
    requires
        placeholder.len() >= 1,
        replacement.len() >= 1,
        !replacement.contains(placeholder[0]),
        forall|j: int| 1 <= j < placeholder.len() ==> placeholder[j] != replacement[0],
    ensures
        !contains_seq(spec_replace_all(text, placeholder, replacement), placeholder),
        contains_seq(text, placeholder) ==> contains_seq(
            spec_replace_all(text, placeholder, replacement),
            replacement,
        ),
{
    lemma_replace_all_removes_pattern(text, placeholder, replacement);
    if contains_seq(text, placeholder) {
        lemma_replace_all_inserts_replacement(text, placeholder, replacement);
    }
}


/// The relocation stage only moves a package forward in the stage
/// order.
pub proof fn lemma_relocate_stage_monotone(
    p: Package,
    pairs: Seq<RelocationEntry>,
    inputs: Seq<FileInput>,
    q: Package,
    actions: Seq<FileAction>,
)
    requires
        relocated_rel(p, pairs, inputs, q, actions),
    ensures
        p.stage.rank() <= q.stage.rank(),
{
}

} // verus!
