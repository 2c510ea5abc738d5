//! The result aggregator: one offset map per configured module, or a fatal
//! error when any module's image cannot be obtained at all.
use vstd::prelude::*;

use crate::builder::{build, build_map, diag_ok, Diagnostic, RegistryEntry};
use crate::offset_map::OffsetMap;

verus! {

/// Why an image provider produced no bytes for a module.
#[derive(Clone, Copy, PartialEq, Eq, Debug)]
pub enum ProviderError {
    /// The module is not loaded where the provider looked.
    ModuleNotFound,
    /// The module was found but its bytes could not be read.
    ReadFailure,
}

/// One module's image as the provider delivered it: the bytes, or the
/// reason there are none.
pub struct ModuleImage {
    pub name: String,
    pub image: Result<Vec<u8>, ProviderError>,
}

/// All registered signatures for one module, in registration order.
pub struct ModuleRegistry {
    pub module: String,
    pub entries: Vec<RegistryEntry>,
}

impl ModuleRegistry {
    pub open spec fn wf(&self) -> bool {
        forall|i: int| 0 <= i < self.entries@.len() ==> (#[trigger] self.entries@[i]).wf()
    }
}

/// A whole run fails with the module whose image was missing, and why.
#[derive(Debug)]
pub struct AggregateError {
    pub module: String,
    pub cause: ProviderError,
}

/// One module's outcome: its offset map and one diagnostic per attempted
/// pattern, in registration order.
#[derive(Debug)]
pub struct ModuleOffsets {
    pub module: String,
    pub offsets: OffsetMap,
    pub events: Vec<Diagnostic>,
}

/// The aggregated result: one entry per configured module, in
/// configuration order.
#[derive(Debug)]
pub struct OffsetTable {
    pub modules: Vec<ModuleOffsets>,
}

/// The first provided image under a module name, if any.
pub open spec fn lookup_image(images: Seq<ModuleImage>, name: Seq<char>) -> Option<ModuleImage>
    decreases images.len(),
{
    if images.len() == 0 {
        None
    } else if images[0].name@ == name {
        Some(images[0])
    } else {
        lookup_image(images.skip(1), name)
    }
}

/// The bytes provided for a module: nothing when no image was handed in
/// under its name, or the provider reported a failure for it.
pub open spec fn provided_image(images: Seq<ModuleImage>, name: Seq<char>) -> Option<Seq<u8>> {
    match lookup_image(images, name) {
        Some(mi) => match mi.image {
            Ok(buf) => Some(buf@),
            Err(_) => None,
        },
        None => None,
    }
}

/// Why a module has no usable image: absent entirely, or failed as the
/// provider said.
pub open spec fn provider_failure(images: Seq<ModuleImage>, name: Seq<char>) -> ProviderError
    recommends
        provided_image(images, name) is None,
{
    match lookup_image(images, name) {
        None => ProviderError::ModuleNotFound,
        Some(mi) => match mi.image {
            Err(e) => e,
            Ok(_) => ProviderError::ReadFailure,
        },
    }
}

/// One module's entry in a successful table: built from exactly the bytes
/// provided under its name, with one faithful diagnostic per entry.
pub open spec fn module_result_ok(
    reg: ModuleRegistry,
    images: Seq<ModuleImage>,
    out: ModuleOffsets,
) -> bool {
    &&& out.module@ == reg.module@
    &&& match provided_image(images, reg.module@) {
        Some(img) => {
            &&& out.offsets.wf()
            &&& out.offsets@ == build_map(reg.entries@, img)
            &&& out.events@.len() == reg.entries@.len()
            &&& forall|j: int|
                0 <= j < reg.entries@.len() ==> diag_ok(
                    reg.entries@[j],
                    img,
                    #[trigger] out.events@[j],
                )
        },
        None => false,
    }
}

proof fn lemma_lookup_is_element(images: Seq<ModuleImage>, name: Seq<char>)
    requires
        lookup_image(images, name) is Some,
    ensures
        exists|i: int|
            0 <= i < images.len() && #[trigger] images[i] == lookup_image(images, name).unwrap(),
    decreases images.len(),
{
    if images.len() > 0 && images[0].name@ != name {
        lemma_lookup_is_element(images.skip(1), name);
        let j = choose|j: int|
            0 <= j < images.skip(1).len() && #[trigger] images.skip(1)[j] == lookup_image(
                images.skip(1),
                name,
            ).unwrap();
        assert(images[j + 1] == images.skip(1)[j]);
    }
}

/// Returns the first provided image under a name, if any.
fn find_image<'a>(images: &'a Vec<ModuleImage>, name: &String) -> (r: Option<&'a ModuleImage>)
    ensures
        match r {
            Some(mi) => lookup_image(images@, name@) == Some(*mi),
            None => lookup_image(images@, name@) is None,
        },
{
    let n = images.len();
    let mut i: usize = 0;
    proof {
        assert(images@.skip(0) =~= images@);
    }
    while i < n
        invariant
            i <= n,
            n == images@.len(),
            lookup_image(images@, name@) == lookup_image(images@.skip(i as int), name@),
        decreases n - i,
    {
        proof {
            assert(images@.skip(i as int)[0] == images@[i as int]);
            assert(images@.skip(i as int).skip(1) =~= images@.skip(i as int + 1));
        }
        if images[i].name.eq(name) {
            return Some(&images[i]);
        }
        i = i + 1;
    }
    proof {
        assert(images@.skip(n as int) =~= Seq::<ModuleImage>::empty());
    }
    None
}

/// Runs every configured module's registry against the image provided for
/// it, in configuration order. A module whose image is absent or failed is
/// fatal: the whole run returns an error naming the first such module, and
/// no partial table. Stale patterns inside a present module are not fatal.
pub fn aggregate(registry: &Vec<ModuleRegistry>, images: &Vec<ModuleImage>) -> (r: Result<
    OffsetTable,
    AggregateError,
>)
    requires
        forall|i: int| 0 <= i < registry@.len() ==> (#[trigger] registry@[i]).wf(),
        forall|i: int|
            0 <= i < images@.len() ==> ((#[trigger] images@[i]).image matches Ok(buf) ==> buf@.len()
                <= u32::MAX),
    ensures
        match r {
            Ok(t) => t.modules@.len() == registry@.len() && forall|i: int|
                0 <= i < registry@.len() ==> module_result_ok(
                    registry@[i],
                    images@,
                    #[trigger] t.modules@[i],
                ),
            Err(e) => exists|i: int|
                {
                    &&& 0 <= i < registry@.len()
                    &&& (#[trigger] registry@[i]).module@ == e.module@
                    &&& provided_image(images@, registry@[i].module@) is None
                    &&& e.cause == provider_failure(images@, registry@[i].module@)
                    &&& forall|j: int|
                        0 <= j < i ==> provided_image(
                            images@,
                            (#[trigger] registry@[j]).module@,
                        ) is Some
                },
        },
        (r is Err) <==> exists|i: int|
            0 <= i < registry@.len() && provided_image(
                images@,
                (#[trigger] registry@[i]).module@,
            ) is None,
{
    let n = registry.len();
    let mut out: Vec<ModuleOffsets> = Vec::new();
    let mut k: usize = 0;
    while k < n
        invariant
            k <= n,
            n == registry@.len(),
            forall|i: int| 0 <= i < registry@.len() ==> (#[trigger] registry@[i]).wf(),
            forall|i: int|
                0 <= i < images@.len() ==> ((#[trigger] images@[i]).image matches Ok(buf)
                    ==> buf@.len() <= u32::MAX),
            out@.len() == k,
            forall|i: int|
                0 <= i < k ==> module_result_ok(registry@[i], images@, #[trigger] out@[i]),
            forall|i: int|
                0 <= i < k ==> provided_image(images@, (#[trigger] registry@[i]).module@) is Some,
        decreases n - k,
    {
        let mr = &registry[k];
        match find_image(images, &mr.module) {
            None => {
                return Err(
                    AggregateError { module: mr.module.clone(), cause: ProviderError::ModuleNotFound },
                );
            },
            Some(mi) => {
                match &mi.image {
                    Err(pe) => {
                        return Err(AggregateError { module: mr.module.clone(), cause: *pe });
                    },
                    Ok(buf) => {
                        proof {
                            lemma_lookup_is_element(images@, mr.module@);
                        }
                        let (map, diags) = build(&mr.entries, buf);
                        out.push(
                            ModuleOffsets { module: mr.module.clone(), offsets: map, events: diags },
                        );
                    },
                }
            },
        }
        k = k + 1;
    }
    proof {
        assert forall|i: int|
            0 <= i < registry@.len() implies provided_image(
            images@,
            (#[trigger] registry@[i]).module@,
        ) is Some by {}
    }
    Ok(OffsetTable { modules: out })
}

} // verus!
