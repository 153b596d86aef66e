//! Index of verified firmware images by hardware version and firmware
//! version.

use vstd::prelude::*;

use crate::image_header::{
    CONTAINER_LEN, Container, FWVersion, HWVersion, Header, VerifyError, fields_of, verify_image,
};

verus! {

/// A verified firmware image: its header and payload.
#[derive(Clone, Debug)]
pub struct Firmware {
    pub header: Header,
    pub payload: Vec<u8>,
}

impl Firmware {
    pub open spec fn payload_view(&self) -> Seq<u8> {
        self.payload@
    }

    pub fn payload(&self) -> (r: &[u8])
        ensures
            r@ == self.payload_view(),
    {
        self.payload.as_slice()
    }

    pub open spec fn hw(&self) -> HWVersion {
        fields_of(self.header@).v0.hw_version
    }

    pub open spec fn fw(&self) -> FWVersion {
        fields_of(self.header@).v0.fw_version
    }
}

/// The image came from a file that passed the container check.
pub open spec fn image_ok(f: Firmware) -> bool {
    exists|b: Seq<u8>|
        #![trigger verify_image(b)]
        verify_image(b) is Ok && b.subrange(4, 120) == f.header@ && b.subrange(
            CONTAINER_LEN as int,
            b.len() as int,
        ) == f.payload_view()
}

/// Every image passed the container check, and no two share their
/// hardware and firmware version.
pub open spec fn index_ok(imgs: Seq<Firmware>) -> bool {
    &&& forall|i: int| 0 <= i < imgs.len() ==> (#[trigger] imgs[i]).header.wf()
    &&& forall|i: int| 0 <= i < imgs.len() ==> image_ok(#[trigger] imgs[i])
    &&& forall|i: int, j: int|
        0 <= i < j < imgs.len() ==> !((#[trigger] imgs[i]).hw() == (#[trigger] imgs[j]).hw()
            && imgs[i].fw() == imgs[j].fw())
}

/// The image holds the header and the payload of the file `buf`.
pub open spec fn from_file(f: Firmware, buf: Seq<u8>) -> bool {
    f.header@ == buf.subrange(4, 120) && f.payload_view() == buf.subrange(
        CONTAINER_LEN as int,
        buf.len() as int,
    )
}

/// Whether the image has the versions `hw` and `fw`.
pub open spec fn has_versions(f: Firmware, hw: HWVersion, fw: FWVersion) -> bool {
    f.hw() == hw && f.fw() == fw
}

/// Firmware images, at most one per hardware and firmware version; each of
/// them passed the container check.
pub struct FirmwareIndex {
    images: Vec<Firmware>,
}

impl FirmwareIndex {
    pub closed spec fn view(&self) -> Seq<Firmware> {
        self.images@
    }

    pub open spec fn wf(&self) -> bool {
        index_ok(self@)
    }

    pub fn new() -> (r: FirmwareIndex)
        ensures
            r.wf(),
            r@.len() == 0,
    {
        FirmwareIndex { images: Vec::new() }
    }

    /// Checks the image file `buf` (container at offset 0, payload after it)
    /// and, where it verifies, adds it, replacing an image of the same
    /// hardware and firmware version; a file that fails leaves the index
    /// as it was.
    pub fn add_image(&mut self, buf: &[u8]) -> (r: Result<(), VerifyError>)
        requires
            old(self).wf(),
        ensures
            final(self).wf(),
            r is Ok <==> verify_image(buf@) is Ok,
            r is Err ==> r->Err_0 == verify_image(buf@)->Err_0 && final(self)@ == old(self)@,
            r is Ok ==> {
                let hw = fields_of(buf@.subrange(4, 120)).v0.hw_version;
                let fw = fields_of(buf@.subrange(4, 120)).v0.fw_version;
                &&& forall|j: int|
                    0 <= j < old(self)@.len() ==> if has_versions(#[trigger] old(self)@[j], hw, fw) {
                        from_file(final(self)@[j], buf@)
                    } else {
                        final(self)@[j] == old(self)@[j]
                    }
                &&& (exists|j: int|
                    0 <= j < old(self)@.len() && has_versions(#[trigger] old(self)@[j], hw, fw))
                    ==> final(self)@.len() == old(self)@.len()
                &&& !(exists|j: int|
                    0 <= j < old(self)@.len() && has_versions(#[trigger] old(self)@[j], hw, fw))
                    ==> final(self)@.len() == old(self)@.len() + 1 && from_file(
                    final(self)@[old(self)@.len() as int],
                    buf@,
                )
            },
    {
        match Container::parse_from(buf) {
            Err(e) => Err(e),
            Ok((c, start)) => {
                let payload = vstd::slice::slice_to_vec(
                    vstd::slice::slice_subrange(buf, start, buf.len()),
                );
                let fields = c.header.fields();
                let fw = Firmware { header: c.header, payload };
                proof {
                    vstd::bytes::lemma_auto_spec_u32_to_from_le_bytes();
                    assert(crate::image_header::container_bytes(c).subrange(4, 120) =~= c.header@);
                    assert(buf@.subrange(0, CONTAINER_LEN as int).subrange(4, 120) =~= buf@.subrange(4, 120));
                    assert(fw.header@ =~= buf@.subrange(4, 120));
                    assert(verify_image(buf@) is Ok);
                    assert(fw.payload@ =~= buf@.subrange(CONTAINER_LEN as int, buf@.len() as int));
                    assert(image_ok(fw));
                }
                let mut i: usize = 0;
                while i < self.images.len()
                    invariant
                        self.wf(),
                        self@ == old(self)@,
                        0 <= i <= self.images@.len(),
                        fields == fields_of(fw.header@),
                        image_ok(fw),
                        verify_image(buf@) is Ok,
                        fw.header.wf(),
                        fw.header@ == buf@.subrange(4, 120),
                        fw.payload_view() == buf@.subrange(CONTAINER_LEN as int, buf@.len() as int),
                        forall|j: int| 0 <= j < i ==> !((#[trigger] self.images@[j]).hw() == fw.hw() && self.images@[j].fw() == fw.fw()),
                    decreases self.images@.len() - i,
                {
                    let h = self.images[i].header.fields();
                    if h.v0.hw_version == fields.v0.hw_version && h.v0.fw_version == fields.v0.fw_version {
                        let ghost before = self.images@;
                        self.images.set(i, fw);
                        proof {
                            assert forall|j: int| 0 <= j < self.images@.len() implies image_ok(#[trigger] self.images@[j]) by {
                                if j == i {
                                    assert(verify_image(buf@) is Ok);
                                } else {
                                    assert(self.images@[j] == before[j]);
                                }
                            }
                            assert forall|x: int, y: int| 0 <= x < y < self.images@.len() implies !((#[trigger] self.images@[x]).hw()
                                == (#[trigger] self.images@[y]).hw() && self.images@[x].fw() == self.images@[y].fw()) by {
                                if x != i && y != i {
                                    assert(self.images@[x] == before[x]);
                                    assert(self.images@[y] == before[y]);
                                } else if x == i {
                                    assert(self.images@[y] == before[y]);
                                } else {
                                    assert(self.images@[x] == before[x]);
                                }
                            }
                            assert(self.images@[i as int] == fw);
                            assert(self@[i as int].header@ == buf@.subrange(4, 120));
                            assert(self@[i as int].payload_view() == buf@.subrange(CONTAINER_LEN as int, buf@.len() as int));
                            assert forall|j: int|
                                0 <= j < old(self)@.len() && !(old(self)@[j].hw() == fields_of(buf@.subrange(4, 120)).v0.hw_version
                                    && old(self)@[j].fw() == fields_of(buf@.subrange(4, 120)).v0.fw_version) implies #[trigger] self@.contains(
                                    old(self)@[j],
                                ) by {
                                assert(j != i);
                                assert(self@[j] == old(self)@[j]);
                            }
                        }
                        return Ok(());
                    }
                    i = i + 1;
                }
                let ghost before = self.images@;
                self.images.push(fw);
                proof {
                    assert forall|j: int| 0 <= j < self.images@.len() implies image_ok(#[trigger] self.images@[j]) by {
                        if j == before.len() {
                            assert(verify_image(buf@) is Ok);
                        } else {
                            assert(self.images@[j] == before[j]);
                        }
                    }
                    assert forall|x: int, y: int| 0 <= x < y < self.images@.len() implies !((#[trigger] self.images@[x]).hw()
                        == (#[trigger] self.images@[y]).hw() && self.images@[x].fw() == self.images@[y].fw()) by {
                        assert(self.images@[x] == before[x]);
                        if y < before.len() {
                            assert(self.images@[y] == before[y]);
                        }
                    }
                    assert(self.images@[before.len() as int] == fw);
                    assert(self@[before.len() as int].header@ == buf@.subrange(4, 120));
                    assert(self@[before.len() as int].payload_view() == buf@.subrange(CONTAINER_LEN as int, buf@.len() as int));
                    assert forall|j: int| 0 <= j < old(self)@.len() implies #[trigger] self@.contains(old(self)@[j]) by {
                        assert(self@[j] == old(self)@[j]);
                    }
                }
                Ok(())
            },
        }
    }

    /// The firmware versions held for the hardware version `hw`.
    pub fn get_firmwares_for(&self, hw: &HWVersion) -> (r: Vec<FWVersion>)
        requires
            self.wf(),
        ensures
            forall|v: FWVersion|
                r@.contains(v) <==> exists|i: int|
                    0 <= i < self@.len() && #[trigger] self@[i].hw() == *hw && self@[i].fw() == v,
    {
        let mut out: Vec<FWVersion> = Vec::new();
        let mut i: usize = 0;
        while i < self.images.len()
            invariant
                self.wf(),
                0 <= i <= self.images@.len(),
                forall|v: FWVersion|
                    out@.contains(v) <==> exists|j: int|
                        0 <= j < i && #[trigger] self@[j].hw() == *hw && self@[j].fw() == v,
            decreases self.images@.len() - i,
        {
            let f = self.images[i].header.fields();
            let ghost before = out@;
            if f.v0.hw_version == *hw {
                out.push(f.v0.fw_version);
            }
            i = i + 1;
            proof {
                assert forall|v: FWVersion|
                    out@.contains(v) <==> exists|j: int|
                        0 <= j < i && #[trigger] self@[j].hw() == *hw && self@[j].fw() == v by {
                    if out@.contains(v) && !before.contains(v) {
                        assert(out@.last() == v) by {
                            let k = choose|k: int| 0 <= k < out@.len() && out@[k] == v;
                            if k < before.len() {
                                assert(before[k] == v);
                            }
                        }
                        assert(self@[i - 1].hw() == *hw && self@[i - 1].fw() == v);
                    }
                    if before.contains(v) {
                        let k = choose|k: int| 0 <= k < before.len() && before[k] == v;
                        assert(out@[k] == v);
                    }
                    if exists|j: int| 0 <= j < i && #[trigger] self@[j].hw() == *hw && self@[j].fw() == v {
                        let j = choose|j: int| 0 <= j < i && #[trigger] self@[j].hw() == *hw && self@[j].fw() == v;
                        if j == i - 1 {
                            assert(out@.last() == v);
                            assert(out@[out@.len() - 1] == v);
                        }
                    }
                }
            }
        }
        out
    }

    /// The newest firmware version held for `hw`, if any.
    pub fn latest_for(&self, hw: &HWVersion) -> (r: Option<FWVersion>)
        requires
            self.wf(),
        ensures
            r is None <==> !exists|i: int| 0 <= i < self@.len() && #[trigger] self@[i].hw() == *hw,
            r is Some ==> exists|i: int|
                0 <= i < self@.len() && #[trigger] self@[i].hw() == *hw && self@[i].fw() == r->Some_0,
            r is Some ==> forall|i: int|
                0 <= i < self@.len() && #[trigger] self@[i].hw() == *hw ==> !r->Some_0.spec_lt(
                    self@[i].fw(),
                ),
    {
        let mut best: Option<FWVersion> = None;
        let mut i: usize = 0;
        while i < self.images.len()
            invariant
                self.wf(),
                0 <= i <= self.images@.len(),
                best is None <==> !exists|j: int| 0 <= j < i && #[trigger] self@[j].hw() == *hw,
                best is Some ==> exists|j: int|
                    0 <= j < i && #[trigger] self@[j].hw() == *hw && self@[j].fw() == best->Some_0,
                best is Some ==> forall|j: int|
                    0 <= j < i && #[trigger] self@[j].hw() == *hw ==> !best->Some_0.spec_lt(
                        self@[j].fw(),
                    ),
            decreases self.images@.len() - i,
        {
            let f = self.images[i].header.fields();
            let ghost old_best = best;
            if f.v0.hw_version == *hw {
                match best {
                    None => {
                        best = Some(f.v0.fw_version);
                    },
                    Some(b) => {
                        if b.lt(&f.v0.fw_version) {
                            best = Some(f.v0.fw_version);
                        }
                    },
                }
            }
            i = i + 1;
            proof {
                let k = i - 1;
                if self@[k].hw() == *hw {
                    assert(best is Some);
                    if best != old_best {
                        assert(self@[k].fw() == best->Some_0);
                    } else {
                        let j0 = choose|j: int| 0 <= j < k && #[trigger] self@[j].hw() == *hw && self@[j].fw() == old_best->Some_0;
                        assert(0 <= j0 < i && self@[j0].hw() == *hw && self@[j0].fw() == best->Some_0);
                    }
                } else {
                    assert(best == old_best);
                    if best is Some {
                        let j0 = choose|j: int| 0 <= j < k && #[trigger] self@[j].hw() == *hw && self@[j].fw() == old_best->Some_0;
                        assert(0 <= j0 < i && self@[j0].hw() == *hw && self@[j0].fw() == best->Some_0);
                    }
                    assert((exists|j: int| 0 <= j < i && #[trigger] self@[j].hw() == *hw) ==> (exists|j: int| 0 <= j < k && #[trigger] self@[j].hw() == *hw));
                }
            }
        }
        best
    }
}

} // verus!
