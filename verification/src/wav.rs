//! Reading sound files.
//!
//! The RIFF WAVE format is read by the `hound` crate; what it makes of a file's
//! bytes is named here by [`wav_header`] and [`wav_int_samples`].
use crate::audio;
use vstd::prelude::*;

verus! {

/// What the header of a sound file says.
#[derive(Clone, Copy, Debug, PartialEq, Eq)]
pub struct WavHeader {
    pub channels: u16,
    pub sample_rate: u32,
    pub bits_per_sample: u16,
    /// The samples are single-precision numbers, not integers.
    pub is_float: bool,
}

/// A sound file that has been read.
#[derive(Debug, PartialEq, Eq)]
pub struct WavAudio {
    pub channels: u16,
    pub sample_rate: u32,
    /// The samples, channels interleaved, as single-precision bit patterns in
    /// units of full scale. `None` where the file stores single-precision
    /// numbers itself, which need no conversion.
    pub samples: Option<Vec<u32>>,
}

/// [`WavAudio`] with its samples as a sequence.
#[verifier::ext_equal]
pub struct WavAudioView {
    pub channels: u16,
    pub sample_rate: u32,
    pub samples: Option<Seq<u32>>,
}

impl View for WavAudio {
    type V = WavAudioView;

    open spec fn view(&self) -> WavAudioView {
        WavAudioView {
            channels: self.channels,
            sample_rate: self.sample_rate,
            samples: match self.samples {
                Some(v) => Some(v@),
                None => None,
            },
        }
    }
}

/// What `hound` says of the header of a file with these bytes: its channels,
/// sample rate, bits per sample and whether its samples are floating-point
/// numbers; or why it is no file that can be read.
pub uninterp spec fn wav_header(bytes: Seq<u8>) -> Result<(u16, u32, u16, bool), Seq<char>>;

/// The samples that `hound` reads as integers from a file with these bytes, or
/// the first thing that keeps it from doing so.
pub uninterp spec fn wav_int_samples(bytes: Seq<u8>) -> Result<Seq<i32>, Seq<char>>;

/// A header as plain values.
pub open spec fn header_view(r: Result<WavHeader, String>) -> Result<
    (u16, u32, u16, bool),
    Seq<char>,
> {
    match r {
        Ok(h) => Ok((h.channels, h.sample_rate, h.bits_per_sample, h.is_float)),
        Err(e) => Err(e@),
    }
}

/// Samples as plain values.
pub open spec fn ints_view(r: Result<Vec<i32>, String>) -> Result<Seq<i32>, Seq<char>> {
    match r {
        Ok(v) => Ok(v@),
        Err(e) => Err(e@),
    }
}

/// `hound::WavReader::new` on the bytes, then `spec`. Its result is a function
/// of the bytes. A header that can be read has a channel and a bit per sample
/// at least. The error is given by its text.
#[verifier::external_body]
fn read_header(bytes: &[u8]) -> (r: Result<WavHeader, String>)
    ensures
        header_view(r) == wav_header(bytes@),
        r matches Ok(h) ==> h.channels >= 1 && h.bits_per_sample >= 1,
{
    match hound::WavReader::new(bytes) {
        Ok(reader) => {
            let spec = reader.spec();
            Ok(WavHeader {
                channels: spec.channels,
                sample_rate: spec.sample_rate,
                bits_per_sample: spec.bits_per_sample,
                is_float: matches!(spec.sample_format, hound::SampleFormat::Float),
            })
        },
        Err(e) => Err(e.to_string()),
    }
}

/// Integer samples agree with the header of their file: an error in the header
/// is their error, they come in whole frames, and only a file of integers with
/// 8, 16, 24 or 32 bits has any.
pub open spec fn agrees(
    ints: Result<Seq<i32>, Seq<char>>,
    header: Result<(u16, u32, u16, bool), Seq<char>>,
) -> bool {
    match header {
        Err(e) => ints == Err::<Seq<i32>, Seq<char>>(e),
        Ok((channels, _, bits, is_float)) => ints matches Ok(s) ==> {
            &&& s.len() % channels as nat == 0
            &&& s.len() > 0 ==> !is_float
            &&& s.len() > 0 ==> bits == 8 || bits == 16 || bits == 24 || bits == 32
        },
    }
}

/// `hound::WavReader::new` on the bytes, then `samples::<i32>` to the end or to
/// the first error. Its result is a function of the bytes, and agrees with the
/// header. The error is given by its text.
#[verifier::external_body]
fn read_int_samples(bytes: &[u8]) -> (r: Result<Vec<i32>, String>)
    ensures
        ints_view(r) == wav_int_samples(bytes@),
        agrees(ints_view(r), wav_header(bytes@)),
{
    let mut reader = match hound::WavReader::new(bytes) {
        Ok(reader) => reader,
        Err(e) => return Err(e.to_string()),
    };
    reader.samples::<i32>().map(|s| s.map_err(|e| e.to_string())).collect()
}

/// Integer samples of `bits` bits as single-precision bit patterns.
pub open spec fn normalized_all(samples: Seq<i32>, bits: nat) -> Seq<u32> {
    samples.map_values(|v: i32| audio::normalized(v as int, bits) as u32)
}

/// Brings integer samples of `bits` bits to full scale.
pub fn normalize_all(samples: &Vec<i32>, bits: u16) -> (r: Vec<u32>)
    requires
        samples@.len() > 0 ==> 1 <= bits <= 63,
    ensures
        r@ == normalized_all(samples@, bits as nat),
{
    let mut r: Vec<u32> = Vec::new();
    let mut i: usize = 0;
    while i < samples.len()
        invariant
            samples@.len() > 0 ==> 1 <= bits <= 63,
            i <= samples@.len(),
            r@ == normalized_all(samples@.take(i as int), bits as nat),
        decreases samples@.len() - i,
    {
        r.push(audio::normalize(samples[i], bits));
        i = i + 1;
        assert(r@ =~= normalized_all(samples@.take(i as int), bits as nat));
    }
    assert(samples@.take(i as int) =~= samples@);
    r
}

/// What a sound file holds, given its header and its integer samples.
pub open spec fn decoded(
    header: Result<(u16, u32, u16, bool), Seq<char>>,
    ints: Result<Seq<i32>, Seq<char>>,
) -> Result<WavAudioView, Seq<char>> {
    match header {
        Err(e) => Err(e),
        Ok((channels, sample_rate, bits, is_float)) => if is_float {
            Ok(WavAudioView { channels, sample_rate, samples: None })
        } else {
            match ints {
                Err(e) => Err(e),
                Ok(s) => Ok(
                    WavAudioView {
                        channels,
                        sample_rate,
                        samples: Some(normalized_all(s, bits as nat)),
                    },
                ),
            }
        },
    }
}

/// A decoded file as plain values.
pub open spec fn audio_view(r: Result<WavAudio, String>) -> Result<WavAudioView, Seq<char>> {
    match r {
        Ok(a) => Ok(a@),
        Err(e) => Err(e@),
    }
}

/// Puts together what was read from a file of integers.
pub fn from_ints(header: WavHeader, ints: Result<Vec<i32>, String>) -> (r: Result<WavAudio, String>)
    requires
        !header.is_float,
        ints matches Ok(v) ==> v@.len() > 0 ==> 1 <= header.bits_per_sample <= 63,
    ensures
        audio_view(r) == decoded(
            header_view(Ok::<WavHeader, String>(header)),
            ints_view(ints),
        ),
{
    match ints {
        Err(e) => Err(e),
        Ok(v) => Ok(
            WavAudio {
                channels: header.channels,
                sample_rate: header.sample_rate,
                samples: Some(normalize_all(&v, header.bits_per_sample)),
            },
        ),
    }
}

/// Reads a sound file from its bytes.
pub fn decode_wav(bytes: &[u8]) -> (r: Result<WavAudio, String>)
    ensures
        audio_view(r) == decoded(wav_header(bytes@), wav_int_samples(bytes@)),
        r matches Ok(a) ==> a.channels >= 1,
{
    match read_header(bytes) {
        Err(e) => Err(e),
        Ok(header) => if header.is_float {
            Ok(
                WavAudio {
                    channels: header.channels,
                    sample_rate: header.sample_rate,
                    samples: None,
                },
            )
        } else {
            from_ints(header, read_int_samples(bytes))
        },
    }
}

/// A file's samples are brought to full scale one by one, in order.
pub proof fn samples_are_normalized_one_by_one(samples: Seq<i32>, bits: nat, i: int)
    requires
        0 <= i < samples.len(),
    ensures
        normalized_all(samples, bits).len() == samples.len(),
        normalized_all(samples, bits)[i] == audio::normalized(samples[i] as int, bits) as u32,
{
}

/// What is read from a file is what it holds: its channels and sample rate as
/// they are, and of a file of integers every sample, in order, at the file's own
/// bit depth. A file that cannot be read, or a sample that cannot, gives just
/// that error.
pub proof fn file_is_read_as_it_is(
    channels: u16,
    sample_rate: u32,
    bits: u16,
    samples: Seq<i32>,
    e: Seq<char>,
    ints: Result<Seq<i32>, Seq<char>>,
    i: int,
)
    ensures
        decoded(Err(e), ints) == Err::<WavAudioView, Seq<char>>(e),
        decoded(Ok((channels, sample_rate, bits, false)), Err(e)) == Err::<WavAudioView, Seq<char>>(
            e,
        ),
        decoded(Ok((channels, sample_rate, bits, true)), ints) == Ok::<WavAudioView, Seq<char>>(
            WavAudioView { channels, sample_rate, samples: None },
        ),
        decoded(Ok((channels, sample_rate, bits, false)), Ok(samples)) matches Ok(a) && a.channels
            == channels && a.sample_rate == sample_rate && (a.samples matches Some(s) && s.len()
            == samples.len() && (0 <= i < s.len() ==> s[i] == audio::normalized(
            samples[i] as int,
            bits as nat,
        ) as u32)),
{
}

/// A file's audio is seen with all that it holds.
pub proof fn view_holds_everything(a: WavAudio)
    ensures
        a@.channels == a.channels,
        a@.sample_rate == a.sample_rate,
        a.samples matches Some(v) ==> a@.samples == Some(v@),
        a.samples is None ==> a@.samples is None,
{
}

} // verus!
