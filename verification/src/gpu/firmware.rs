//! Checked decoding of the graphics firmware, and the layout of the protected
//! region that the secure loader copies it from.
use vstd::prelude::*;
use vstd::slice::slice_subrange;

use crate::words;

verus! {

/// Four bytes as a number, the lowest first.
pub open spec fn at(bytes: Seq<u8>, offset: int) -> u32 {
    (bytes[offset] + 0x100 * bytes[offset + 1] + 0x1_0000 * bytes[offset + 2] + 0x100_0000
        * bytes[offset + 3]) as u32
}

/// The first of two complaints.
pub open spec fn first(a: Option<&'static str>, b: Option<&'static str>) -> Option<&'static str> {
    if a is Some {
        a
    } else {
        b
    }
}

pub open spec fn unless(holds: bool, complaint: &'static str) -> Option<&'static str> {
    if holds {
        None
    } else {
        Some(complaint)
    }
}

/// What is wrong with a number at an offset.
pub open spec fn field(bytes: Seq<u8>, offset: int) -> Option<&'static str> {
    if offset + 4 > usize::MAX {
        Some("firmware offset overflow")
    } else if offset + 4 > bytes.len() {
        Some("firmware field outside blob")
    } else {
        None
    }
}

/// What is wrong with a range of bytes.
pub open spec fn span(bytes: Seq<u8>, offset: u32, size: u32) -> Option<&'static str> {
    if offset + size > u32::MAX {
        Some("firmware range overflow")
    } else if offset + size > bytes.len() {
        Some("firmware range outside blob")
    } else {
        None
    }
}

pub open spec fn part(bytes: Seq<u8>, offset: u32, size: u32) -> Seq<u8> {
    bytes.subrange(offset as int, offset + size)
}

pub fn word(bytes: &[u8], offset: usize) -> (r: Result<u32, &'static str>)
    ensures
        match r {
            Ok(value) => field(bytes@, offset as int) is None && value == at(bytes@, offset as int),
            Err(e) => field(bytes@, offset as int) == Some(e),
        },
{
    if offset > usize::MAX - 4 {
        return Err("firmware offset overflow");
    }
    if offset + 4 > bytes.len() {
        return Err("firmware field outside blob");
    }
    Ok(
        bytes[offset] as u32 + 0x100 * (bytes[offset + 1] as u32) + 0x1_0000 * (bytes[offset
            + 2] as u32) + 0x100_0000 * (bytes[offset + 3] as u32),
    )
}

/// A range of bytes that lies in the blob.
pub fn range(bytes: &[u8], offset: u32, size: u32) -> (r: Result<&[u8], &'static str>)
    ensures
        match r {
            Ok(value) => span(bytes@, offset, size) is None && value@ == part(bytes@, offset, size),
            Err(e) => span(bytes@, offset, size) == Some(e),
        },
{
    let end: u64 = offset as u64 + size as u64;
    if end > u32::MAX as u64 {
        return Err("firmware range overflow");
    }
    if end > bytes.len() as u64 {
        return Err("firmware range outside blob");
    }
    Ok(slice_subrange(bytes, offset as usize, end as usize))
}

pub open spec fn align_spec(value: int, alignment: int) -> int {
    (value + alignment - 1) / alignment * alignment
}

/// The next multiple of the alignment.
pub fn align(value: usize, alignment: usize) -> (r: usize)
    requires
        0 < alignment <= 4096,
        value <= 0x4000_0000,
    ensures
        r == align_spec(value as int, alignment as int),
        value <= r < value + alignment,
        r % alignment == 0,
{
    let steps: usize = (value + alignment - 1) / alignment;
    proof {
        vstd::arithmetic::div_mod::lemma_fundamental_div_mod(
            value + alignment - 1,
            alignment as int,
        );
        vstd::arithmetic::div_mod::lemma_mod_multiples_basic(steps as int, alignment as int);
        vstd::arithmetic::mul::lemma_mul_is_commutative(steps as int, alignment as int);
    }
    steps * alignment
}

/// The next multiple of 256 in 32 bits, where the last page wraps to zero.
pub open spec fn align_page(value: u32) -> u32 {
    (align_spec(value as int, 256) % 0x1_0000_0000) as u32
}

fn page(value: u32) -> (r: u32)
    ensures
        r == align_page(value),
{
    ((value as u64 + 255) / 256 * 256 % 0x1_0000_0000) as u32
}

pub fn copied(bytes: &[u8]) -> (r: Vec<u8>)
    ensures
        r@ == bytes@,
{
    let mut r: Vec<u8> = Vec::new();
    let mut i: usize = 0;
    while i < bytes.len()
        invariant
            i <= bytes@.len(),
            r@ =~= bytes@.take(i as int),
        decreases bytes@.len() - i,
    {
        r.push(bytes[i]);
        i = i + 1;
    }
    r
}

pub open spec fn zeros(count: int) -> Seq<u8> {
    Seq::new(count as nat, |i: int| 0u8)
}

/// Some bytes laid over an image.
pub open spec fn overlay(image: Seq<u8>, at: int, bytes: Seq<u8>) -> Seq<u8> {
    Seq::new(
        image.len(),
        |i: int|
            if at <= i < at + bytes.len() {
                bytes[i - at]
            } else {
                image[i]
            },
    )
}

/// Numbers as bytes, the lowest first.
pub open spec fn packed(words: Seq<u32>) -> Seq<u8> {
    Seq::new(4 * words.len(), |i: int| words::byte_of(words[i / 4], i % 4))
}

/// Lays bytes over an image.
fn put(image: &mut [u8], at: usize, bytes: &[u8])
    requires
        at + bytes@.len() <= old(image)@.len(),
    ensures
        final(image)@ == overlay(old(image)@, at as int, bytes@),
{
    let total: usize = image.len();
    let count: usize = bytes.len();
    let mut i: usize = 0;
    while i < count
        invariant
            i <= count,
            count == bytes@.len(),
            total == image@.len(),
            at + count <= image@.len(),
            image@.len() == old(image)@.len(),
            forall|j: int|
                0 <= j < image@.len() ==> #[trigger] image@[j] == if at <= j < at + i {
                    bytes@[j - at]
                } else {
                    old(image)@[j]
                },
        decreases count - i,
    {
        image[at + i] = bytes[i];
        i = i + 1;
    }
    assert(image@ =~= overlay(old(image)@, at as int, bytes@));
}

/// Lays numbers over an image.
pub fn put_words(image: &mut [u8], at: usize, words: &[u32])
    requires
        words@.len() <= 32,
        at + 4 * words@.len() <= old(image)@.len(),
    ensures
        final(image)@ == overlay(old(image)@, at as int, packed(words@)),
{
    let total: usize = image.len();
    let count: usize = words.len();
    let mut k: usize = 0;
    while k < count
        invariant
            k <= count,
            total == image@.len(),
            count == words@.len(),
            count <= 32,
            at + 4 * count <= image@.len(),
            image@.len() == old(image)@.len(),
            forall|j: int|
                0 <= j < image@.len() ==> #[trigger] image@[j] == if at <= j < at + 4 * k {
                    words::byte_of(words@[(j - at) / 4], (j - at) % 4)
                } else {
                    old(image)@[j]
                },
        decreases count - k,
    {
        let value: u32 = words[k];
        let place: usize = at + 4 * k;
        image[place] = (value % 256) as u8;
        image[place + 1] = (value / 0x100 % 256) as u8;
        image[place + 2] = (value / 0x1_0000 % 256) as u8;
        image[place + 3] = (value / 0x100_0000) as u8;
        assert forall|j: int| 0 <= j < image@.len() implies #[trigger] image@[j] == if at <= j < at
            + 4 * (k + 1) {
            words::byte_of(words@[(j - at) / 4], (j - at) % 4)
        } else {
            old(image)@[j]
        } by {
            if place <= j < place + 4 {
                assert((j - at) / 4 == k && (j - at) % 4 == j - place);
            }
        }
        k = k + 1;
    }
    assert(image@ =~= overlay(old(image)@, at as int, packed(words@)));
}

/// A file: where its header is, and its data.
pub struct Container<'a> {
    pub header: u32,
    pub data: &'a [u8],
}

/// What is wrong with a file. Files that leave their own length out are accepted.
pub open spec fn container_error(bytes: Seq<u8>) -> Option<&'static str> {
    first(
        field(bytes, 0),
        first(
            unless(at(bytes, 0) == 0x3b1d14f0, "unsupported NVIDIA firmware container"),
            first(
                field(bytes, 4),
                first(
                    unless(at(bytes, 4) == 1, "unsupported NVIDIA firmware container"),
                    first(
                        field(bytes, 8),
                        first(
                            unless(
                                at(bytes, 8) == 0 || at(bytes, 8) == bytes.len(),
                                "NVIDIA firmware container length invalid",
                            ),
                            first(field(bytes, 20), span(bytes, at(bytes, 16), at(bytes, 20))),
                        ),
                    ),
                ),
            ),
        ),
    )
}

pub open spec fn container_header(bytes: Seq<u8>) -> u32 {
    at(bytes, 12)
}

pub open spec fn container_data(bytes: Seq<u8>) -> Seq<u8> {
    part(bytes, at(bytes, 16), at(bytes, 20))
}

impl<'a> Container<'a> {
    pub fn parse(bytes: &'a [u8]) -> (r: Result<Self, &'static str>)
        ensures
            match r {
                Ok(c) => {
                    &&& container_error(bytes@) is None
                    &&& c.header == container_header(bytes@)
                    &&& c.data@ == container_data(bytes@)
                },
                Err(e) => container_error(bytes@) == Some(e),
            },
    {
        if word(bytes, 0)? != 0x3b1d14f0 {
            return Err("unsupported NVIDIA firmware container");
        }
        if word(bytes, 4)? != 1 {
            return Err("unsupported NVIDIA firmware container");
        }
        let size: u32 = word(bytes, 8)?;
        if size != 0 && size as usize != bytes.len() {
            return Err("NVIDIA firmware container length invalid");
        }
        let header: u32 = word(bytes, 12)?;
        let start: u32 = word(bytes, 16)?;
        let length: u32 = word(bytes, 20)?;
        let data = range(bytes, start, length)?;
        Ok(Container { header, data })
    }
}

/// A bootloader, filled up to whole pages, and where it runs.
pub struct Boot {
    pub code: Vec<u8>,
    pub address: u32,
}

/// The header of a bootloader.
pub open spec fn boot_header(bytes: Seq<u8>) -> Seq<u8> {
    part(bytes, container_header(bytes), 24)
}

pub open spec fn boot_code(bytes: Seq<u8>) -> Seq<u8> {
    part(container_data(bytes), at(boot_header(bytes), 8), at(boot_header(bytes), 12))
}

pub open spec fn boot_error(bytes: Seq<u8>) -> Option<&'static str> {
    let header = boot_header(bytes);
    first(
        container_error(bytes),
        first(
            span(bytes, container_header(bytes), 24),
            first(
                span(container_data(bytes), at(header, 8), at(header, 12)),
                first(
                    unless(
                        0 < boot_code(bytes).len() <= 4096,
                        "Falcon bootloader size invalid",
                    ),
                    unless(at(header, 0) * 256 <= u32::MAX, "Falcon boot tag overflow"),
                ),
            ),
        ),
    )
}

impl Boot {
    /// The bootloader of a file.
    pub open spec fn of(self, bytes: Seq<u8>) -> bool {
        let code = boot_code(bytes);
        &&& self.address == at(boot_header(bytes), 0) * 256
        &&& self.code@ == code + zeros(align_spec(code.len() as int, 256) - code.len())
    }

    pub fn parse(bytes: &[u8]) -> (r: Result<Self, &'static str>)
        ensures
            match r {
                Ok(boot) => boot_error(bytes@) is None && boot.of(bytes@) && 0 < boot.code@.len()
                    <= 4096,
                Err(e) => boot_error(bytes@) == Some(e),
            },
    {
        let container = Container::parse(bytes)?;
        let header = range(bytes, container.header, 24)?;
        let start: u32 = word(header, 8)?;
        let length: u32 = word(header, 12)?;
        let code = range(container.data, start, length)?;
        if code.len() == 0 || code.len() > 4096 {
            return Err("Falcon bootloader size invalid");
        }
        let tag: u32 = word(header, 0)?;
        if tag > u32::MAX / 256 {
            return Err("Falcon boot tag overflow");
        }
        let mut padded: Vec<u8> = copied(code);
        let size: usize = align(code.len(), 256);
        padded.resize(size, 0);
        assert(padded@ =~= code@ + zeros(size - code@.len()));
        Ok(Boot { code: padded, address: tag * 256 })
    }
}

/// The secure loader, with its two signatures.
pub struct Acr {
    pub image: Vec<u8>,
    pub boot: Boot,
    pub nonsecure_offset: u32,
    pub nonsecure_size: u32,
    pub secure_offset: u32,
    pub secure_size: u32,
    pub data_offset: u32,
    pub data_size: u32,
    pub signature_offset: usize,
    pub production_signature: [u8; 16],
    pub debug_signature: [u8; 16],
}

/// The header of the secure loader.
pub open spec fn acr_header(bytes: Seq<u8>) -> Seq<u8> {
    part(bytes, container_header(bytes), 32)
}

pub open spec fn acr_layout(bytes: Seq<u8>) -> Seq<u8> {
    part(bytes, at(acr_header(bytes), 24), at(acr_header(bytes), 28))
}

/// Where a signature is: its own offset in the table.
pub open spec fn signature_place(header: Seq<u8>, which: int) -> int {
    at(header, which) + at(header, 20)
}

pub open spec fn signature_error(bytes: Seq<u8>, header: Seq<u8>, which: int) -> Option<
    &'static str,
> {
    first(
        unless(signature_place(header, which) <= u32::MAX, "ACR signature offset overflow"),
        span(bytes, signature_place(header, which) as u32, 16),
    )
}

pub open spec fn acr_shape_error(bytes: Seq<u8>) -> Option<&'static str> {
    let header = acr_header(bytes);
    let layout = acr_layout(bytes);
    first(
        container_error(bytes),
        first(
            span(bytes, container_header(bytes), 32),
            first(
                span(bytes, at(header, 24), at(header, 28)),
                first(
                    field(layout, 16),
                    first(
                        unless(
                            at(layout, 16) == 1 && at(header, 4) == 16 && at(header, 12) == 16,
                            "unsupported ACR application/signature count",
                        ),
                        field(layout, 24),
                    ),
                ),
            ),
        ),
    )
}

pub open spec fn acr_content_error(bytes: Seq<u8>) -> Option<&'static str> {
    let header = acr_header(bytes);
    let layout = acr_layout(bytes);
    let data = container_data(bytes);
    let signature = at(header, 16);
    first(
        span(data, at(layout, 0), at(layout, 4)),
        first(
            span(data, at(layout, 20), at(layout, 24)),
            first(
                span(data, at(layout, 8), at(layout, 12)),
                first(
                    unless(
                        at(layout, 12) >= 0x270 && at(layout, 20) % 256 == 0,
                        "ACR data descriptor or code alignment invalid",
                    ),
                    first(
                        unless(
                            at(layout, 8) <= signature && signature + 16 <= at(layout, 8) + at(
                                layout,
                                12,
                            ),
                            "ACR signature patch outside DMEM image",
                        ),
                        first(signature_error(bytes, header, 8), signature_error(bytes, header, 0)),
                    ),
                ),
            ),
        ),
    )
}

pub open spec fn acr_error(bytes: Seq<u8>, boot: Seq<u8>) -> Option<&'static str> {
    first(acr_shape_error(bytes), first(acr_content_error(bytes), boot_error(boot)))
}

impl Acr {
    /// Both places that are patched lie in the image.
    pub open spec fn wf(self) -> bool {
        &&& self.data_offset + self.data_size <= self.image@.len()
        &&& self.data_size >= 0x270
        &&& self.data_offset <= self.signature_offset
        &&& self.signature_offset + 16 <= self.data_offset + self.data_size
        &&& self.data_offset + self.data_size <= u32::MAX
        &&& self.secure_offset + self.secure_size <= self.image@.len()
        &&& self.nonsecure_offset + self.nonsecure_size <= self.image@.len()
    }

    /// The loader of a file.
    pub open spec fn of(self, bytes: Seq<u8>, boot: Seq<u8>) -> bool {
        let header = acr_header(bytes);
        let layout = acr_layout(bytes);
        &&& self.image@ == container_data(bytes)
        &&& self.boot.of(boot)
        &&& self.nonsecure_offset == at(layout, 0)
        &&& self.nonsecure_size == at(layout, 4)
        &&& self.data_offset == at(layout, 8)
        &&& self.data_size == at(layout, 12)
        &&& self.secure_offset == at(layout, 20)
        &&& self.secure_size == at(layout, 24)
        &&& self.signature_offset == at(header, 16)
        &&& self.production_signature@ == part(bytes, signature_place(header, 8) as u32, 16)
        &&& self.debug_signature@ == part(bytes, signature_place(header, 0) as u32, 16)
    }

    pub fn parse(bytes: &[u8], boot: &[u8]) -> (r: Result<Self, &'static str>)
        ensures
            match r {
                Ok(acr) => acr_error(bytes@, boot@) is None && acr.of(bytes@, boot@) && acr.wf(),
                Err(e) => acr_error(bytes@, boot@) == Some(e),
            },
    {
        let container = Container::parse(bytes)?;
        let header = range(bytes, container.header, 32)?;
        let layout_start: u32 = word(header, 24)?;
        let layout_size: u32 = word(header, 28)?;
        let layout = range(bytes, layout_start, layout_size)?;
        let applications: u32 = word(layout, 16)?;
        if applications != 1 || word(header, 4)? != 16 || word(header, 12)? != 16 {
            return Err("unsupported ACR application/signature count");
        }
        let nonsecure_offset: u32 = word(layout, 0)?;
        let nonsecure_size: u32 = word(layout, 4)?;
        let data_offset: u32 = word(layout, 8)?;
        let data_size: u32 = word(layout, 12)?;
        let secure_offset: u32 = word(layout, 20)?;
        let secure_size: u32 = word(layout, 24)?;
        assert(acr_shape_error(bytes@) is None);
        range(container.data, nonsecure_offset, nonsecure_size)?;
        range(container.data, secure_offset, secure_size)?;
        range(container.data, data_offset, data_size)?;
        if data_size < 0x270 || secure_offset % 256 != 0 {
            return Err("ACR data descriptor or code alignment invalid");
        }
        let signature: u32 = word(header, 16)?;
        if signature < data_offset || signature as u64 + 16 > data_offset as u64
            + data_size as u64 {
            return Err("ACR signature patch outside DMEM image");
        }
        let production_signature: [u8; 16] = Self::signature(bytes, header, 8)?;
        let debug_signature: [u8; 16] = Self::signature(bytes, header, 0)?;
        assert(acr_content_error(bytes@) is None);
        let boot = Boot::parse(boot)?;
        Ok(
            Acr {
                image: copied(container.data),
                boot,
                nonsecure_offset,
                nonsecure_size,
                secure_offset,
                secure_size,
                data_offset,
                data_size,
                signature_offset: signature as usize,
                production_signature,
                debug_signature,
            },
        )
    }

    fn signature(bytes: &[u8], header: &[u8], which: usize) -> (r: Result<[u8; 16], &'static str>)
        requires
            header@.len() == 32,
            which <= 8,
        ensures
            match r {
                Ok(s) => signature_error(bytes@, header@, which as int) is None && s@ == part(
                    bytes@,
                    signature_place(header@, which as int) as u32,
                    16,
                ),
                Err(e) => signature_error(bytes@, header@, which as int) == Some(e),
            },
    {
        let own: u32 = word(header, which)?;
        let table: u32 = word(header, 20)?;
        if own as u64 + table as u64 > u32::MAX as u64 {
            return Err("ACR signature offset overflow");
        }
        let found = range(bytes, own + table, 16)?;
        let mut signature: [u8; 16] = [0; 16];
        let mut i: usize = 0;
        while i < 16
            invariant
                i <= 16,
                found@.len() == 16,
                forall|j: int| 0 <= j < i ==> #[trigger] signature@[j] == found@[j],
            decreases 16 - i,
        {
            signature[i] = found[i];
            i = i + 1;
        }
        assert(signature@ =~= found@);
        Ok(signature)
    }

    /// An image with the signature in place, and the size and the address of what
    /// the loader has to copy.
    pub open spec fn patched(self, image: Seq<u8>, debug: bool, shadow: u64, size: u32) -> Seq<u8> {
        let signature = if debug {
            self.debug_signature@
        } else {
            self.production_signature@
        };
        overlay(
            overlay(
                overlay(image, self.signature_offset as int, signature),
                self.data_offset + 0x240,
                packed(seq![size]),
            ),
            self.data_offset + 0x248,
            packed(seq![(shadow % 0x1_0000_0000) as u32, (shadow / 0x1_0000_0000) as u32]),
        )
    }

    pub fn patch(&self, image: &mut [u8], debug: bool, shadow: u64, size: u32)
        requires
            self.wf(),
            self.image@.len() <= old(image)@.len(),
        ensures
            final(image)@ == self.patched(old(image)@, debug, shadow, size),
    {
        if debug {
            put(image, self.signature_offset, &self.debug_signature);
        } else {
            put(image, self.signature_offset, &self.production_signature);
        }
        let descriptor: usize = self.data_offset as usize;
        let low: u32 = (shadow % 0x1_0000_0000) as u32;
        let high: u32 = (shadow / 0x1_0000_0000) as u32;
        let count: [u32; 1] = [size];
        let address: [u32; 2] = [low, high];
        assert(count@ =~= seq![size]);
        assert(address@ =~= seq![low, high]);
        put_words(image, descriptor + 0x240, &count);
        put_words(image, descriptor + 0x248, &address);
    }
}

/// Firmware that the secure loader starts for another processor.
pub struct Ls {
    pub image: Vec<u8>,
    pub signature: [u8; 76],
    pub boot_size: u32,
    pub boot_address: u32,
    pub app_start: u32,
    pub app_size: u32,
    pub app_entry: u32,
    pub code_offset: u32,
    pub code_size: u32,
    pub data_offset: u32,
    pub data_size: u32,
    pub ucode_size: u32,
}

pub open spec fn ls_signature_error(bytes: Seq<u8>, id: u32) -> Option<&'static str> {
    unless(
        bytes.len() == 76 && at(bytes, 72) == id,
        "LS firmware signature Falcon ID invalid",
    )
}

pub open spec fn pmu_error(desc: Seq<u8>, image: Seq<u8>, signature: Seq<u8>) -> Option<
    &'static str,
> {
    let boot_size = align_page(at(desc, 84));
    let start = at(desc, 96);
    let app_size = align_page(at(desc, 100));
    let code = at(desc, 116);
    let data = at(desc, 124);
    first(
        field(desc, 0),
        first(
            unless(at(desc, 0) == desc.len(), "PMU firmware descriptor length invalid"),
            first(
                field(desc, 4),
                first(
                    unless(at(desc, 4) == image.len(), "PMU firmware descriptor length invalid"),
                    first(
                        field(desc, 128),
                        first(
                            span(image, at(desc, 80), boot_size),
                            first(
                                span(image, start, app_size),
                                first(
                                    unless(start + code <= u32::MAX, "PMU code offset overflow"),
                                    first(
                                        span(image, (start + code) as u32, at(desc, 120)),
                                        first(
                                            unless(
                                                start + data <= u32::MAX,
                                                "PMU data offset overflow",
                                            ),
                                            first(
                                                span(image, (start + data) as u32, at(desc, 128)),
                                                pmu_split_error(
                                                    align_page(data),
                                                    boot_size,
                                                    app_size,
                                                    signature,
                                                ),
                                            ),
                                        ),
                                    ),
                                ),
                            ),
                        ),
                    ),
                ),
            ),
        ),
    )
}

pub open spec fn pmu_split_error(
    data: u32,
    boot_size: u32,
    app_size: u32,
    signature: Seq<u8>,
) -> Option<&'static str> {
    first(
        unless(data + boot_size <= u32::MAX, "PMU ucode size overflow"),
        first(
            unless(data <= app_size, "PMU ucode/data split invalid"),
            ls_signature_error(signature, 0),
        ),
    )
}

pub open spec fn fecs_error(boot: Seq<u8>, signature: Seq<u8>) -> Option<&'static str> {
    first(boot_error(boot), ls_signature_error(signature, 2))
}

/// Code, then instructions, then data, each filled up to whole pages.
pub open spec fn fecs_image(boot: Seq<u8>, inst: Seq<u8>, data: Seq<u8>) -> Seq<u8> {
    boot + (inst + zeros(align_spec(inst.len() as int, 256) - inst.len())) + (data + zeros(
        align_spec(data.len() as int, 256) - data.len(),
    ))
}

impl Ls {
    /// What the protected region needs of it.
    pub open spec fn wf(self) -> bool {
        &&& self.image@.len() <= 0x10_0000
        &&& self.boot_size <= 0x10_0000
        &&& self.app_size <= 0x10_0000
        &&& self.ucode_size <= self.boot_size + self.app_size
        &&& self.app_start + self.code_offset + self.code_size <= 0x10_0000
        &&& self.app_start + self.data_offset + self.data_size <= 0x10_0000
    }

    fn signature(bytes: &[u8], id: u32) -> (r: Result<[u8; 76], &'static str>)
        ensures
            match r {
                Ok(s) => ls_signature_error(bytes@, id) is None && s@ == bytes@,
                Err(e) => ls_signature_error(bytes@, id) == Some(e),
            },
    {
        if bytes.len() != 76 {
            return Err("LS firmware signature Falcon ID invalid");
        }
        if word(bytes, 72)? != id {
            return Err("LS firmware signature Falcon ID invalid");
        }
        let mut signature: [u8; 76] = [0; 76];
        let mut i: usize = 0;
        while i < 76
            invariant
                i <= 76,
                bytes@.len() == 76,
                forall|j: int| 0 <= j < i ==> #[trigger] signature@[j] == bytes@[j],
            decreases 76 - i,
        {
            signature[i] = bytes[i];
            i = i + 1;
        }
        assert(signature@ =~= bytes@);
        Ok(signature)
    }

    /// The firmware that a descriptor describes.
    pub open spec fn of_pmu(self, desc: Seq<u8>, image: Seq<u8>, signature: Seq<u8>) -> bool {
        &&& self.image@ == image
        &&& self.signature@ == signature
        &&& self.boot_size == align_page(at(desc, 84))
        &&& self.boot_address == at(desc, 88)
        &&& self.app_start == at(desc, 96)
        &&& self.app_size == align_page(at(desc, 100))
        &&& self.app_entry == at(desc, 108)
        &&& self.code_offset == at(desc, 116)
        &&& self.code_size == at(desc, 120)
        &&& self.data_offset == at(desc, 124)
        &&& self.data_size == at(desc, 128)
        &&& self.ucode_size == align_page(at(desc, 124)) + align_page(at(desc, 84))
    }

    pub fn pmu(desc: &[u8], image: Vec<u8>, signature: &[u8]) -> (r: Result<Self, &'static str>)
        requires
            image@.len() <= 0x10_0000,
        ensures
            match r {
                Ok(ls) => pmu_error(desc@, image@, signature@) is None && ls.of_pmu(
                    desc@,
                    image@,
                    signature@,
                ) && ls.wf(),
                Err(e) => pmu_error(desc@, image@, signature@) == Some(e),
            },
    {
        if word(desc, 0)? as usize != desc.len() {
            return Err("PMU firmware descriptor length invalid");
        }
        if word(desc, 4)? as usize != image.len() {
            return Err("PMU firmware descriptor length invalid");
        }
        let boot_size: u32 = page(word(desc, 84)?);
        let app_start: u32 = word(desc, 96)?;
        let app_size: u32 = page(word(desc, 100)?);
        let code_offset: u32 = word(desc, 116)?;
        let code_size: u32 = word(desc, 120)?;
        let data_offset: u32 = word(desc, 124)?;
        let data_size: u32 = word(desc, 128)?;
        let boot_offset: u32 = word(desc, 80)?;
        range(image.as_slice(), boot_offset, boot_size)?;
        range(image.as_slice(), app_start, app_size)?;
        if app_start as u64 + code_offset as u64 > u32::MAX as u64 {
            return Err("PMU code offset overflow");
        }
        range(image.as_slice(), app_start + code_offset, code_size)?;
        if app_start as u64 + data_offset as u64 > u32::MAX as u64 {
            return Err("PMU data offset overflow");
        }
        range(image.as_slice(), app_start + data_offset, data_size)?;
        let split: u32 = page(data_offset);
        if split as u64 + boot_size as u64 > u32::MAX as u64 {
            return Err("PMU ucode size overflow");
        }
        let ucode_size: u32 = split + boot_size;
        if ucode_size > boot_size + app_size {
            return Err("PMU ucode/data split invalid");
        }
        let signature: [u8; 76] = Self::signature(signature, 0)?;
        let boot_address: u32 = word(desc, 88)?;
        let app_entry: u32 = word(desc, 108)?;
        Ok(
            Ls {
                image,
                signature,
                boot_size,
                boot_address,
                app_start,
                app_size,
                app_entry,
                code_offset,
                code_size,
                data_offset,
                data_size,
                ucode_size,
            },
        )
    }

    /// The firmware that its parts make up.
    pub open spec fn of_fecs(
        self,
        boot: Seq<u8>,
        inst: Seq<u8>,
        data: Seq<u8>,
        signature: Seq<u8>,
    ) -> bool {
        let boot_size = align_spec(boot_code(boot).len() as int, 256);
        let code_size = align_spec(inst.len() as int, 256);
        let data_size = align_spec(data.len() as int, 256);
        &&& self.image@ == fecs_image(
            boot_code(boot) + zeros(boot_size - boot_code(boot).len()),
            inst,
            data,
        )
        &&& self.signature@ == signature
        &&& self.boot_size == boot_size
        &&& self.boot_address == at(boot_header(boot), 0) * 256
        &&& self.app_start == boot_size
        &&& self.app_size == code_size + data_size
        &&& self.app_entry == 0
        &&& self.code_offset == 0
        &&& self.code_size == code_size
        &&& self.data_offset == code_size
        &&& self.data_size == data_size
        &&& self.ucode_size == boot_size + code_size
    }

    pub fn fecs(boot: &[u8], inst: &[u8], data: &[u8], signature: &[u8]) -> (r: Result<
        Self,
        &'static str,
    >)
        requires
            inst@.len() <= 0x4_0000,
            data@.len() <= 0x4_0000,
        ensures
            match r {
                Ok(ls) => fecs_error(boot@, signature@) is None && ls.of_fecs(
                    boot@,
                    inst@,
                    data@,
                    signature@,
                ) && ls.wf(),
                Err(e) => fecs_error(boot@, signature@) == Some(e),
            },
    {
        let boot = Boot::parse(boot)?;
        let boot_size: usize = boot.code.len();
        let code_size: usize = align(inst.len(), 256);
        let data_size: usize = align(data.len(), 256);
        let mut image: Vec<u8> = boot.code;
        let ghost code = image@;
        let ghost whole = fecs_image(code, inst@, data@);
        image.resize(boot_size + code_size + data_size, 0);
        put(image.as_mut_slice(), boot_size, inst);
        put(image.as_mut_slice(), boot_size + code_size, data);
        assert(image@ =~= whole);
        let signature: [u8; 76] = Self::signature(signature, 2)?;
        Ok(
            Ls {
                image,
                signature,
                boot_size: boot_size as u32,
                boot_address: boot.address,
                app_start: boot_size as u32,
                app_size: (code_size + data_size) as u32,
                app_entry: 0,
                code_offset: 0,
                code_size: code_size as u32,
                data_offset: code_size as u32,
                data_size: data_size as u32,
                ucode_size: (boot_size + code_size) as u32,
            },
        )
    }
}

/// Sizes of the files that are known to work together.
pub const ACR_SIZE: usize = 18592;

pub const ACR_BOOT_SIZE: usize = 832;

pub const PMU_DESC_SIZE: usize = 652;

pub const PMU_IMAGE_SIZE: usize = 47872;

pub const SIGNATURE_SIZE: usize = 76;

pub const FECS_BOOT_SIZE: usize = 576;

pub const FECS_INST_SIZE: usize = 17021;

pub const FECS_DATA_SIZE: usize = 1964;

pub const GPCCS_INST_SIZE: usize = 9964;

pub const GPCCS_DATA_SIZE: usize = 2068;

pub const NONCONTEXT_SIZE: usize = 1432;

pub const CONTEXT_SIZE: usize = 5448;

pub const BUNDLE_SIZE: usize = 7616;

pub const METHODS_SIZE: usize = 10800;

/// The files as they were read.
pub struct Files {
    pub acr: Vec<u8>,
    pub acr_boot: Vec<u8>,
    pub pmu_desc: Vec<u8>,
    pub pmu_image: Vec<u8>,
    pub pmu_signature: Vec<u8>,
    pub fecs_boot: Vec<u8>,
    pub fecs_inst: Vec<u8>,
    pub fecs_data: Vec<u8>,
    pub fecs_signature: Vec<u8>,
    pub gpccs_inst: Vec<u8>,
    pub gpccs_data: Vec<u8>,
    pub noncontext: Vec<u8>,
    pub context: Vec<u8>,
    pub bundle: Vec<u8>,
    pub methods: Vec<u8>,
}

pub open spec fn sized(bytes: Seq<u8>, expected: usize) -> Option<&'static str> {
    unless(bytes.len() == expected, "GM20B firmware size differs from pinned image")
}

/// What is wrong with the files, in the order in which they are needed.
pub open spec fn files_error(files: Files) -> Option<&'static str> {
    first(
        first(sized(files.acr@, ACR_SIZE), sized(files.acr_boot@, ACR_BOOT_SIZE)),
        first(
            acr_error(files.acr@, files.acr_boot@),
            first(
                first(
                    sized(files.pmu_desc@, PMU_DESC_SIZE),
                    first(
                        sized(files.pmu_image@, PMU_IMAGE_SIZE),
                        sized(files.pmu_signature@, SIGNATURE_SIZE),
                    ),
                ),
                first(
                    pmu_error(files.pmu_desc@, files.pmu_image@, files.pmu_signature@),
                    first(
                        first(
                            first(
                                sized(files.fecs_boot@, FECS_BOOT_SIZE),
                                sized(files.fecs_inst@, FECS_INST_SIZE),
                            ),
                            first(
                                sized(files.fecs_data@, FECS_DATA_SIZE),
                                sized(files.fecs_signature@, SIGNATURE_SIZE),
                            ),
                        ),
                        first(
                            fecs_error(files.fecs_boot@, files.fecs_signature@),
                            tables_error(files),
                        ),
                    ),
                ),
            ),
        ),
    )
}

pub open spec fn tables_error(files: Files) -> Option<&'static str> {
    first(
        sized(files.gpccs_inst@, GPCCS_INST_SIZE),
        first(
            sized(files.gpccs_data@, GPCCS_DATA_SIZE),
            first(
                sized(files.noncontext@, NONCONTEXT_SIZE),
                first(
                    sized(files.context@, CONTEXT_SIZE),
                    first(
                        sized(files.bundle@, BUNDLE_SIZE),
                        sized(files.methods@, METHODS_SIZE),
                    ),
                ),
            ),
        ),
    )
}

fn expect(bytes: &Vec<u8>, expected: usize) -> (r: Result<(), &'static str>)
    ensures
        match r {
            Ok(_) => sized(bytes@, expected) is None,
            Err(e) => sized(bytes@, expected) == Some(e),
        },
{
    if bytes.len() != expected {
        return Err("GM20B firmware size differs from pinned image");
    }
    Ok(())
}

fn expect_tables(files: &Files) -> (r: Result<(), &'static str>)
    ensures
        match r {
            Ok(_) => tables_error(*files) is None,
            Err(e) => tables_error(*files) == Some(e),
        },
{
    expect(&files.gpccs_inst, GPCCS_INST_SIZE)?;
    expect(&files.gpccs_data, GPCCS_DATA_SIZE)?;
    expect(&files.noncontext, NONCONTEXT_SIZE)?;
    expect(&files.context, CONTEXT_SIZE)?;
    expect(&files.bundle, BUNDLE_SIZE)?;
    expect(&files.methods, METHODS_SIZE)
}

/// Everything that the graphics processor needs.
pub struct Firmware {
    pub acr: Acr,
    pub pmu: Ls,
    pub fecs: Ls,
    pub gpccs_inst: Vec<u8>,
    pub gpccs_data: Vec<u8>,
    pub noncontext: Vec<u8>,
    pub context: Vec<u8>,
    pub bundle: Vec<u8>,
    pub methods: Vec<u8>,
}

/// Offsets of one processor's firmware behind an image of some length: its
/// header, its code, its loader's arguments.
pub open spec fn header_at(length: int) -> int {
    align_spec(length, 256)
}

pub open spec fn code_at(length: int) -> int {
    align_spec(header_at(length) + 124, 4096)
}

pub open spec fn arguments_at(length: int, ls: Ls) -> int {
    align_spec(code_at(length) + ls.image@.len(), 256)
}

/// The table entry of one processor.
pub open spec fn entry_words(id: u32, length: int) -> Seq<u32> {
    seq![
        id,
        header_at(length) as u32,
        0u32,
        if id != 0 {
            1u32
        } else {
            0
        },
        1u32,
    ]
}

/// What follows the signature in a header. Only the power processor asks for its
/// own context.
pub open spec fn header_words(id: u32, length: int, ls: Ls) -> Seq<u32> {
    seq![
        code_at(length) as u32,
        ls.ucode_size,
        (ls.app_size + ls.boot_size - ls.ucode_size) as u32,
        ls.boot_size,
        ls.boot_address,
        arguments_at(length, ls) as u32,
        256u32,
        (ls.app_start + ls.code_offset) as u32,
        ls.code_size,
        (ls.app_start + ls.data_offset) as u32,
        ls.data_size,
        if id == 0 {
            4u32
        } else {
            0
        },
    ]
}

pub open spec fn code_address(base: u64, length: int, ls: Ls) -> int {
    base + code_at(length) + ls.app_start + ls.code_offset
}

pub open spec fn data_address(base: u64, length: int, ls: Ls) -> int {
    base + code_at(length) + ls.app_start + ls.data_offset
}

/// An address in units of 256 bytes, in two halves.
pub open spec fn low_page(address: int) -> u32 {
    (address / 0x100 % 0x1_0000_0000) as u32
}

pub open spec fn high_page(address: int) -> u32 {
    (address / 0x100_0000_0000) as u32
}

/// The arguments of the power processor's loader.
pub open spec fn pmu_words(base: u64, length: int, ls: Ls, dmem_size: u32) -> Seq<u32> {
    let code = code_address(base, length, ls);
    let data = data_address(base, length, ls);
    seq![
        0u32,
        low_page(code),
        ls.app_size,
        ls.code_size,
        ls.app_entry,
        low_page(data),
        ls.data_size,
        low_page(code),
        1u32,
        (dmem_size - 44) as u32,
        high_page(code),
        high_page(data),
        high_page(code),
    ]
}

/// The arguments of the context processor's loader, which come after 32 bytes
/// that it does not use.
pub open spec fn fecs_words(base: u64, length: int, ls: Ls) -> Seq<u32> {
    let code = code_address(base, length, ls);
    let data = data_address(base, length, ls);
    seq![
        0u32,
        low_page(code),
        ls.code_offset,
        ls.code_size,
        0u32,
        0u32,
        ls.app_entry,
        low_page(data),
        ls.data_size,
        high_page(code),
        high_page(data),
    ]
}

/// An image with one processor's firmware added, but for its arguments.
pub open spec fn placed(image: Seq<u8>, index: int, id: u32, ls: Ls) -> Seq<u8> {
    let length = image.len() as int;
    let grown = image + zeros(arguments_at(length, ls) + 256 - length);
    overlay(
        overlay(
            overlay(
                overlay(grown, 20 * index, packed(entry_words(id, length))),
                header_at(length),
                ls.signature@,
            ),
            header_at(length) + 76,
            packed(header_words(id, length, ls)),
        ),
        code_at(length),
        ls.image@,
    )
}

pub open spec fn with_pmu(base: u64, pmu: Ls, dmem_size: u32) -> Seq<u8> {
    overlay(
        placed(zeros(220), 0, 0, pmu),
        arguments_at(220, pmu),
        packed(pmu_words(base, 220, pmu, dmem_size)),
    )
}

pub open spec fn with_both(base: u64, pmu: Ls, fecs: Ls, dmem_size: u32) -> Seq<u8> {
    let image = with_pmu(base, pmu, dmem_size);
    let length = image.len() as int;
    overlay(
        placed(image, 1, 2, fecs),
        arguments_at(length, fecs) + 32,
        packed(fecs_words(base, length, fecs)),
    )
}

/// The whole region: a table of eleven entries that ends after the second, then
/// the two processors' firmware.
pub open spec fn wpr_spec(base: u64, pmu: Ls, fecs: Ls, dmem_size: u32) -> Seq<u8> {
    overlay(with_both(base, pmu, fecs, dmem_size), 40, packed(seq![u32::MAX]))
}

pub open spec fn wpr_error(base: u64, pmu: Ls, fecs: Ls, dmem_size: u32) -> Option<&'static str> {
    let length = with_pmu(base, pmu, dmem_size).len() as int;
    first(
        unless(dmem_size >= 44, "PMU DMEM cannot hold secure-mode arguments"),
        first(
            unless(code_address(base, 220, pmu) <= u64::MAX, "WPR code address overflow"),
            first(
                unless(data_address(base, 220, pmu) <= u64::MAX, "WPR data address overflow"),
                first(
                    unless(
                        code_address(base, length, fecs) <= u64::MAX,
                        "WPR code address overflow",
                    ),
                    unless(
                        data_address(base, length, fecs) <= u64::MAX,
                        "WPR data address overflow",
                    ),
                ),
            ),
        ),
    )
}

fn low(address: u64) -> (r: u32)
    ensures
        r == low_page(address as int),
{
    (address / 0x100 % 0x1_0000_0000) as u32
}

fn high(address: u64) -> (r: u32)
    ensures
        r == high_page(address as int),
{
    (address / 0x100_0000_0000) as u32
}

impl Firmware {
    pub open spec fn wf(self) -> bool {
        &&& self.acr.wf()
        &&& self.pmu.wf()
        &&& self.fecs.wf()
        &&& self.acr.image@.len() <= 0x10_0000
        &&& self.acr.boot.code@.len() <= 0x10_0000
        &&& self.gpccs_inst@.len() <= 0x10_0000
        &&& self.gpccs_data@.len() <= 0x10_0000
        &&& self.noncontext@.len() <= 0x10_0000
        &&& self.context@.len() <= 0x10_0000
        &&& self.bundle@.len() <= 0x10_0000
        &&& self.methods@.len() <= 0x10_0000
    }

    /// The firmware that the files hold.
    pub open spec fn of(self, files: Files) -> bool {
        &&& self.acr.of(files.acr@, files.acr_boot@)
        &&& self.pmu.of_pmu(files.pmu_desc@, files.pmu_image@, files.pmu_signature@)
        &&& self.fecs.of_fecs(
            files.fecs_boot@,
            files.fecs_inst@,
            files.fecs_data@,
            files.fecs_signature@,
        )
        &&& self.gpccs_inst == files.gpccs_inst
        &&& self.gpccs_data == files.gpccs_data
        &&& self.noncontext == files.noncontext
        &&& self.context == files.context
        &&& self.bundle == files.bundle
        &&& self.methods == files.methods
    }

    pub fn load(files: Files) -> (r: Result<Self, &'static str>)
        ensures
            match r {
                Ok(firmware) => files_error(files) is None && firmware.of(files) && firmware.wf(),
                Err(e) => files_error(files) == Some(e),
            },
    {
        expect(&files.acr, ACR_SIZE)?;
        expect(&files.acr_boot, ACR_BOOT_SIZE)?;
        let acr = Acr::parse(files.acr.as_slice(), files.acr_boot.as_slice())?;
        expect(&files.pmu_desc, PMU_DESC_SIZE)?;
        expect(&files.pmu_image, PMU_IMAGE_SIZE)?;
        expect(&files.pmu_signature, SIGNATURE_SIZE)?;
        let pmu = Ls::pmu(
            files.pmu_desc.as_slice(),
            copied(files.pmu_image.as_slice()),
            files.pmu_signature.as_slice(),
        )?;
        expect(&files.fecs_boot, FECS_BOOT_SIZE)?;
        expect(&files.fecs_inst, FECS_INST_SIZE)?;
        expect(&files.fecs_data, FECS_DATA_SIZE)?;
        expect(&files.fecs_signature, SIGNATURE_SIZE)?;
        let fecs = Ls::fecs(
            files.fecs_boot.as_slice(),
            files.fecs_inst.as_slice(),
            files.fecs_data.as_slice(),
            files.fecs_signature.as_slice(),
        )?;
        expect_tables(&files)?;
        Ok(
            Firmware {
                acr,
                pmu,
                fecs,
                gpccs_inst: files.gpccs_inst,
                gpccs_data: files.gpccs_data,
                noncontext: files.noncontext,
                context: files.context,
                bundle: files.bundle,
                methods: files.methods,
            },
        )
    }

    /// Adds one processor's firmware, but for its arguments, and says where its
    /// code and its arguments are.
    fn place(image: &mut Vec<u8>, index: usize, id: u32, ls: &Ls) -> (r: (usize, usize))
        requires
            ls.wf(),
            index <= 1,
            220 <= old(image)@.len() <= 0x40_0000,
        ensures
            final(image)@ == placed(old(image)@, index as int, id, *ls),
            r.0 == code_at(old(image)@.len() as int),
            r.1 == arguments_at(old(image)@.len() as int, *ls),
            final(image)@.len() == r.1 + 256,
            old(image)@.len() <= r.0 < old(image)@.len() + 0x2000,
            r.0 + ls.image@.len() <= r.1 < r.0 + ls.image@.len() + 0x100,
    {
        let length: usize = image.len();
        let header: usize = align(length, 256);
        let code: usize = align(header + 124, 4096);
        let arguments: usize = align(code + ls.image.len(), 256);
        image.resize(arguments + 256, 0);
        assert(image@ =~= old(image)@ + zeros(arguments + 256 - length));
        let entry: [u32; 5] = [
            id,
            header as u32,
            0,
            if id != 0 {
                1
            } else {
                0
            },
            1,
        ];
        assert(entry@ =~= entry_words(id, length as int));
        put_words(image.as_mut_slice(), 20 * index, &entry);
        put(image.as_mut_slice(), header, &ls.signature);
        let words: [u32; 12] = [
            code as u32,
            ls.ucode_size,
            ls.app_size + ls.boot_size - ls.ucode_size,
            ls.boot_size,
            ls.boot_address,
            arguments as u32,
            256,
            ls.app_start + ls.code_offset,
            ls.code_size,
            ls.app_start + ls.data_offset,
            ls.data_size,
            if id == 0 {
                4
            } else {
                0
            },
        ];
        assert(words@ =~= header_words(id, length as int, *ls));
        put_words(image.as_mut_slice(), header + 76, &words);
        put(image.as_mut_slice(), code, ls.image.as_slice());
        (code, arguments)
    }

    fn addresses(base: u64, code: usize, ls: &Ls) -> (r: Result<(u64, u64), &'static str>)
        requires
            ls.wf(),
            code <= 0x1000_0000,
        ensures
            match r {
                Ok(a) => a.0 == base + code + ls.app_start + ls.code_offset && a.1 == base + code
                    + ls.app_start + ls.data_offset,
                Err(e) => first(
                    unless(
                        base + code + ls.app_start + ls.code_offset <= u64::MAX,
                        "WPR code address overflow",
                    ),
                    unless(
                        base + code + ls.app_start + ls.data_offset <= u64::MAX,
                        "WPR data address overflow",
                    ),
                ) == Some(e),
            },
    {
        let code_offset: u64 = code as u64 + ls.app_start as u64 + ls.code_offset as u64;
        let data_offset: u64 = code as u64 + ls.app_start as u64 + ls.data_offset as u64;
        let code_address: u64 = match base.checked_add(code_offset) {
            Some(address) => address,
            None => {
                return Err("WPR code address overflow");
            },
        };
        let data_address: u64 = match base.checked_add(data_offset) {
            Some(address) => address,
            None => {
                return Err("WPR data address overflow");
            },
        };
        Ok((code_address, data_address))
    }

    /// The protected region for a base address, and for what the power processor
    /// has of data memory.
    pub fn wpr(&self, base: u64, dmem_size: u32) -> (r: Result<Vec<u8>, &'static str>)
        requires
            self.wf(),
        ensures
            match r {
                Ok(image) => wpr_error(base, self.pmu, self.fecs, dmem_size) is None && image@
                    == wpr_spec(base, self.pmu, self.fecs, dmem_size),
                Err(e) => wpr_error(base, self.pmu, self.fecs, dmem_size) == Some(e),
            },
    {
        if dmem_size < 44 {
            return Err("PMU DMEM cannot hold secure-mode arguments");
        }
        let mut image: Vec<u8> = vec![0; 220];
        assert(image@ =~= zeros(220));
        let (code, arguments): (usize, usize) = Self::place(&mut image, 0, 0, &self.pmu);
        let (code_address, data_address): (u64, u64) = Self::addresses(base, code, &self.pmu)?;
        let pmu_arguments: [u32; 13] = [
            0,
            low(code_address),
            self.pmu.app_size,
            self.pmu.code_size,
            self.pmu.app_entry,
            low(data_address),
            self.pmu.data_size,
            low(code_address),
            1,
            dmem_size - 44,
            high(code_address),
            high(data_address),
            high(code_address),
        ];
        assert(pmu_arguments@ =~= pmu_words(base, 220, self.pmu, dmem_size));
        put_words(image.as_mut_slice(), arguments, &pmu_arguments);
        let ghost both = image@;
        assert(both =~= with_pmu(base, self.pmu, dmem_size));
        let (code, arguments): (usize, usize) = Self::place(&mut image, 1, 2, &self.fecs);
        let (code_address, data_address): (u64, u64) = Self::addresses(base, code, &self.fecs)?;
        let fecs_arguments: [u32; 11] = [
            0,
            low(code_address),
            self.fecs.code_offset,
            self.fecs.code_size,
            0,
            0,
            self.fecs.app_entry,
            low(data_address),
            self.fecs.data_size,
            high(code_address),
            high(data_address),
        ];
        assert(fecs_arguments@ =~= fecs_words(base, both.len() as int, self.fecs));
        put_words(image.as_mut_slice(), arguments + 32, &fecs_arguments);
        let end: [u32; 1] = [u32::MAX];
        assert(end@ =~= seq![u32::MAX]);
        put_words(image.as_mut_slice(), 40, &end);
        Ok(image)
    }
}

/// Nothing in the protected region covers anything else: both processors' code and
/// signatures are in it as they came.
pub proof fn region_holds_both_images(base: u64, pmu: Ls, fecs: Ls, dmem_size: u32)
    requires
        pmu.wf(),
        fecs.wf(),
    ensures
        ({
            let image = wpr_spec(base, pmu, fecs, dmem_size);
            let length = with_pmu(base, pmu, dmem_size).len() as int;
            &&& image.subrange(code_at(220), code_at(220) + pmu.image@.len()) == pmu.image@
            &&& image.subrange(header_at(220), header_at(220) + 76) == pmu.signature@
            &&& image.subrange(code_at(length), code_at(length) + fecs.image@.len()) == fecs.image@
            &&& image.subrange(header_at(length), header_at(length) + 76) == fecs.signature@
            &&& code_at(220) % 4096 == 0
            &&& code_at(length) % 4096 == 0
        }),
{
    let image = wpr_spec(base, pmu, fecs, dmem_size);
    let first_part = with_pmu(base, pmu, dmem_size);
    let length = first_part.len() as int;
    assert(length == arguments_at(220, pmu) + 256);
    assert(image.subrange(code_at(220), code_at(220) + pmu.image@.len()) =~= pmu.image@);
    assert(image.subrange(header_at(220), header_at(220) + 76) =~= pmu.signature@);
    assert(image.subrange(code_at(length), code_at(length) + fecs.image@.len()) =~= fecs.image@);
    assert(image.subrange(header_at(length), header_at(length) + 76) =~= fecs.signature@);
}

/// A patch touches the signature and the two descriptor fields, nothing else.
pub proof fn patches_are_local(acr: Acr, image: Seq<u8>, debug: bool, shadow: u64, size: u32, i: int)
    requires
        acr.wf(),
        acr.image@.len() <= image.len(),
        0 <= i < image.len(),
        !(acr.signature_offset <= i < acr.signature_offset + 16),
        !(acr.data_offset + 0x240 <= i < acr.data_offset + 0x244),
        !(acr.data_offset + 0x248 <= i < acr.data_offset + 0x250),
    ensures
        acr.patched(image, debug, shadow, size)[i] == image[i],
        acr.patched(image, debug, shadow, size).len() == image.len(),
{
}

/// A word is four bytes, the lowest first.
proof fn lemma_told(image: Seq<u8>, start: int, words: Seq<u32>, k: int)
    requires
        0 <= start,
        0 <= k < words.len(),
        start + 4 * words.len() <= image.len(),
        forall|i: int|
            start <= i < start + 4 * words.len() ==> #[trigger] image[i] == packed(words)[i - start],
    ensures
        at(image, start + 4 * k) == words[k],
{
    let p = packed(words);
    assert(image[start + 4 * k] == p[4 * k]);
    assert(image[start + 4 * k + 1] == p[4 * k + 1]);
    assert(image[start + 4 * k + 2] == p[4 * k + 2]);
    assert(image[start + 4 * k + 3] == p[4 * k + 3]);
    assert((4 * k) / 4 == k && (4 * k + 1) / 4 == k && (4 * k + 2) / 4 == k && (4 * k + 3) / 4 == k);
    assert((4 * k) % 4 == 0 && (4 * k + 1) % 4 == 1 && (4 * k + 2) % 4 == 2 && (4 * k + 3) % 4 == 3);
    words::bytes_make_their_word(words[k]);
}

/// The header of an image in the region, as its reader finds it: where the image is, how much
/// of it is code and how much data, and where its arguments are.
pub open spec fn heads(image: Seq<u8>, header: int, ls: Ls, code: int, arguments: int, flags: u32) -> bool {
    &&& at(image, header + 76) == code
    &&& at(image, header + 80) == ls.ucode_size
    &&& at(image, header + 84) == ls.app_size + ls.boot_size - ls.ucode_size
    &&& at(image, header + 88) == ls.boot_size
    &&& at(image, header + 92) == ls.boot_address
    &&& at(image, header + 96) == arguments
    &&& at(image, header + 100) == 256
    &&& at(image, header + 104) == ls.app_start + ls.code_offset
    &&& at(image, header + 108) == ls.code_size
    &&& at(image, header + 112) == ls.app_start + ls.data_offset
    &&& at(image, header + 116) == ls.data_size
    &&& at(image, header + 120) == flags
}

proof fn lemma_heads(image: Seq<u8>, id: u32, length: int, ls: Ls)
    requires
        ls.wf(),
        0 <= length <= 0x40_0000,
        header_at(length) + 124 <= image.len(),
        forall|i: int|
            header_at(length) + 76 <= i < header_at(length) + 124 ==> #[trigger] image[i] == packed(
                header_words(id, length, ls),
            )[i - header_at(length) - 76],
    ensures
        heads(
            image,
            header_at(length),
            ls,
            code_at(length),
            arguments_at(length, ls),
            if id == 0 {
                4u32
            } else {
                0
            },
        ),
{
    let w = header_words(id, length, ls);
    let start = header_at(length) + 76;
    assert(w.len() == 12);
    lemma_told(image, start, w, 0);
    lemma_told(image, start, w, 1);
    lemma_told(image, start, w, 2);
    lemma_told(image, start, w, 3);
    lemma_told(image, start, w, 4);
    lemma_told(image, start, w, 5);
    lemma_told(image, start, w, 6);
    lemma_told(image, start, w, 7);
    lemma_told(image, start, w, 8);
    lemma_told(image, start, w, 9);
    lemma_told(image, start, w, 10);
    lemma_told(image, start, w, 11);
}

/// The region tells its reader what it holds: two entries and an end, each entry with its
/// processor and its header, and each header with its image.
pub proof fn the_region_describes_both_images(base: u64, pmu: Ls, fecs: Ls, dmem_size: u32)
    requires
        pmu.wf(),
        fecs.wf(),
    ensures
        ({
            let image = wpr_spec(base, pmu, fecs, dmem_size);
            let length = with_pmu(base, pmu, dmem_size).len() as int;
            &&& at(image, 0) == 0 && at(image, 4) == 256
            &&& at(image, 20) == 2 && at(image, 24) == header_at(length)
            &&& at(image, 40) == 0xffff_ffff
            &&& heads(image, 256, pmu, 4096, arguments_at(220, pmu), 4)
            &&& heads(image, header_at(length), fecs, code_at(length), arguments_at(length, fecs), 0)
            &&& length <= header_at(length) < length + 256
            &&& header_at(length) + 124 <= code_at(length) < header_at(length) + 124 + 4096
        }),
{
    let image = wpr_spec(base, pmu, fecs, dmem_size);
    let part = with_pmu(base, pmu, dmem_size);
    let length = part.len() as int;
    assert(length == arguments_at(220, pmu) + 256);
    assert(header_at(220) == 256 && code_at(220) == 4096);
    lemma_told(image, 40, seq![u32::MAX], 0);
    lemma_told(image, 0, entry_words(0, 220), 0);
    lemma_told(image, 0, entry_words(0, 220), 1);
    lemma_told(image, 20, entry_words(2, length), 0);
    lemma_told(image, 20, entry_words(2, length), 1);
    lemma_heads(image, 0, 220, pmu);
    lemma_heads(image, 2, length, fecs);
}

/// An address is told in pages of 256 bytes, in two words.
pub proof fn pages_make_their_address(address: int)
    requires
        0 <= address <= u64::MAX,
    ensures
        ({
            let page = low_page(address) + 0x1_0000_0000 * high_page(address);
            256 * page <= address < 256 * page + 256
        }),
{
}

/// A container is taken if it is of this kind and version, tells its length or none, and its
/// data are in it; a loader has at most a page of code, a description and a tag.
pub proof fn containers_hold_their_data(bytes: Seq<u8>)
    requires
        container_error(bytes) is None,
    ensures
        bytes.len() >= 24,
        at(bytes, 0) == 0x3b1d_14f0 && at(bytes, 4) == 1,
        at(bytes, 8) == 0 || at(bytes, 8) == bytes.len(),
        at(bytes, 16) + at(bytes, 20) <= bytes.len(),
        container_data(bytes).len() == at(bytes, 20),
        boot_error(bytes) is None ==> 1 <= at(boot_header(bytes), 12) <= 4096 && at(
            bytes,
            12,
        ) + 24 <= bytes.len() && at(boot_header(bytes), 8) + at(boot_header(bytes), 12) <= at(
            bytes,
            20,
        ),
{
}

/// A power unit's image is described by its own words: where its loader and its application
/// are, and how the application falls into code and data; sizes are in whole pages of 256.
#[verifier::spinoff_prover]
#[verifier::rlimit(60)]
pub proof fn descriptions_tell_the_image(ls: Ls, desc: Seq<u8>, image: Seq<u8>, signature: Seq<u8>)
    requires
        ls.of_pmu(desc, image, signature),
        at(desc, 84) <= 0x10_0000,
        at(desc, 100) <= 0x10_0000,
        at(desc, 124) <= 0x10_0000,
    ensures
        ls.image@ == image && ls.signature@ == signature,
        ls.boot_size % 256 == 0 && at(desc, 84) <= ls.boot_size < at(desc, 84) + 256,
        ls.boot_address == at(desc, 88),
        ls.app_start == at(desc, 96),
        ls.app_size % 256 == 0 && at(desc, 100) <= ls.app_size < at(desc, 100) + 256,
        ls.app_entry == at(desc, 108),
        ls.code_offset == at(desc, 116) && ls.code_size == at(desc, 120),
        ls.data_offset == at(desc, 124) && ls.data_size == at(desc, 128),
        at(desc, 124) + ls.boot_size <= ls.ucode_size < at(desc, 124) + ls.boot_size + 256,
{
    lemma_page(at(desc, 84));
    lemma_page(at(desc, 100));
    lemma_page(at(desc, 124));
}

proof fn lemma_page(value: u32)
    requires
        value <= 0x10_0000,
    ensures
        align_page(value) % 256 == 0,
        value <= align_page(value) < value + 256,
{
}

/// Signatures are for one processor, which the last word of their 76 bytes names.
pub proof fn signatures_name_their_processor(bytes: Seq<u8>, id: u32)
    ensures
        ls_signature_error(bytes, id) is None <==> bytes.len() == 76 && bytes[72] + 0x100 * bytes[73]
            + 0x1_0000 * bytes[74] + 0x100_0000 * bytes[75] == id,
{
}

/// The loader's image has its parts where its own words say, and both its signatures.
pub proof fn loaders_have_their_parts(acr: Acr, bytes: Seq<u8>, boot: Seq<u8>)
    requires
        acr.of(bytes, boot),
        acr_error(bytes, boot) is None,
    ensures
        ({
            let header = acr_header(bytes);
            let layout = acr_layout(bytes);
            &&& acr.image@ == container_data(bytes)
            &&& acr.nonsecure_offset == at(layout, 0) && acr.nonsecure_size == at(layout, 4)
            &&& acr.data_offset == at(layout, 8) && acr.data_size == at(layout, 12)
            &&& at(layout, 16) == 1
            &&& acr.secure_offset == at(layout, 20) && acr.secure_size == at(layout, 24)
            &&& acr.signature_offset == at(header, 16)
            &&& acr.debug_signature@.len() == 16 && acr.production_signature@.len() == 16
            &&& at(header, 4) == 16 && at(header, 12) == 16
            &&& acr.data_size >= 0x270 && acr.secure_offset % 256 == 0
        }),
{
}

} // verus!
