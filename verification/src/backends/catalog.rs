//! The one list of all backends.

use crate::backend::Backend;
use crate::backends::gigabyte_gpu::GigabyteGpu;
use crate::backends::gigabyte_mobo::GigabyteMobo;
use crate::backends::gskill_ddr5::GSkillDdr5;
use vstd::prelude::*;

verus! {

/// One of the backends.
pub enum AnyBackend {
    Mobo(GigabyteMobo),
    Gpu(GigabyteGpu),
    Ddr5(GSkillDdr5),
}

impl AnyBackend {
    /// The backend's name.
    pub open spec fn label(&self) -> Seq<char> {
        match *self {
            AnyBackend::Mobo(_) => "gigabyte-mobo"@,
            AnyBackend::Gpu(_) => "gigabyte-gpu"@,
            AnyBackend::Ddr5(_) => "gskill-ddr5"@,
        }
    }

    /// The backend's name.
    pub fn name(&self) -> (n: &'static str)
        ensures
            n@ == self.label(),
    {
        match self {
            AnyBackend::Mobo(b) => b.name(),
            AnyBackend::Gpu(b) => b.name(),
            AnyBackend::Ddr5(b) => b.name(),
        }
    }
}

/// Every backend, in the order in which devices are listed: motherboards, graphics cards,
/// memory.
pub fn all() -> (list: Vec<AnyBackend>)
    ensures
        list@.len() == 3,
        list@[0] is Mobo,
        list@[1] is Gpu,
        list@[2] is Ddr5,
        list@.map_values(|b: AnyBackend| b.label()) == labels(),
{
    let list = vec![
        AnyBackend::Mobo(GigabyteMobo::new()),
        AnyBackend::Gpu(GigabyteGpu::new()),
        AnyBackend::Ddr5(GSkillDdr5::new()),
    ];
    assert(list@.map_values(|b: AnyBackend| b.label()) =~= labels());
    list
}

/// The names of the backends, in their order.
pub open spec fn labels() -> Seq<Seq<char>> {
    seq!["gigabyte-mobo"@, "gigabyte-gpu"@, "gskill-ddr5"@]
}

/// The name of the backend at a place.
pub fn name_at(place: usize) -> (n: &'static str)
    requires
        place < 3,
    ensures
        n@ == labels()[place as int],
{
    if place == 0 {
        "gigabyte-mobo"
    } else if place == 1 {
        "gigabyte-gpu"
    } else {
        "gskill-ddr5"
    }
}

/// No two backends have the same name, and none has a colon in it, so that a written device id
/// tells which backend and which key it is made of.
pub proof fn law_backend_names_are_distinct()
    ensures
        forall|i: int, j: int|
            0 <= i < j < labels().len() ==> #[trigger] labels()[i] != #[trigger] labels()[j],
        forall|i: int| 0 <= i < labels().len() ==> !(#[trigger] labels()[i]).contains(':'),
{
    reveal_strlit("gigabyte-mobo");
    reveal_strlit("gigabyte-gpu");
    reveal_strlit("gskill-ddr5");
    assert(labels()[0].len() == 13);
    assert(labels()[1].len() == 12);
    assert(labels()[2].len() == 11);
}

/// In the list of all backends each goes by its own name.
pub proof fn law_backends_go_by_their_own_names(b: AnyBackend)
    ensures
        b.label() == match b {
            AnyBackend::Mobo(mobo) => Backend::label(&mobo),
            AnyBackend::Gpu(gpu) => Backend::label(&gpu),
            AnyBackend::Ddr5(ddr5) => Backend::label(&ddr5),
        },
        b.label() == match b {
            AnyBackend::Mobo(_) => labels()[0],
            AnyBackend::Gpu(_) => labels()[1],
            AnyBackend::Ddr5(_) => labels()[2],
        },
{
}

} // verus!
