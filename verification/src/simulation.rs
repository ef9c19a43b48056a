use vstd::prelude::*;

verus! {

/// The four bytes of one number of a recording, as they stand in the file.
pub type Word = [u8; 4];

/// The bytes of one recorded position: its three coordinates.
pub type FrameBytes = [Word; 3];

/// How many bytes one recorded position takes.
pub const FRAME_BYTES: usize = 12;

/// How many bytes stand before the positions of a recording: the frames per
/// second, the last frame, and the number of particles.
pub const HEADER_BYTES: usize = 12;

/// The four bytes of `bytes` from `at` on.
pub open spec fn word_at(bytes: Seq<u8>, at: int) -> Word {
    [bytes[at], bytes[at + 1], bytes[at + 2], bytes[at + 3]]
}

/// The twelve bytes of `bytes` from `at` on, as three words.
pub open spec fn frame_at(bytes: Seq<u8>, at: int) -> FrameBytes {
    [word_at(bytes, at), word_at(bytes, at + 4), word_at(bytes, at + 8)]
}

/// The bytes cut into positions of twelve bytes each.
pub open spec fn framed(bytes: Seq<u8>) -> Seq<FrameBytes> {
    Seq::new((bytes.len() / 12) as nat, |i: int| frame_at(bytes, 12 * i))
}

/// The words of a position one after the other.
pub open spec fn frame_flat(frame: FrameBytes) -> Seq<u8> {
    frame[0]@ + frame[1]@ + frame[2]@
}

/// The positions one after the other, as bytes.
pub open spec fn unframed(frames: Seq<FrameBytes>) -> Seq<u8>
    decreases frames.len(),
{
    if frames.len() == 0 {
        Seq::empty()
    } else {
        unframed(frames.drop_last()) + frame_flat(frames.last())
    }
}

/// The bytes of the positions are twelve for each.
pub proof fn lemma_unframed_len(frames: Seq<FrameBytes>)
    ensures
        unframed(frames).len() == 12 * frames.len(),
    decreases frames.len(),
{
    if frames.len() > 0 {
        lemma_unframed_len(frames.drop_last());
    }
}

/// Cutting up the bytes that positions were written to gives the positions
/// back.
pub proof fn lemma_framed_unframed(frames: Seq<FrameBytes>)
    ensures
        framed(unframed(frames)) == frames,
    decreases frames.len(),
{
    lemma_unframed_len(frames);
    if frames.len() > 0 {
        let earlier = frames.drop_last();
        lemma_framed_unframed(earlier);
        lemma_unframed_len(earlier);
        let bytes = unframed(frames);
        let cut = framed(bytes);
        assert(cut.len() == frames.len());
        assert forall|i: int| 0 <= i < frames.len() implies cut[i] == frames[i] by {
            if i < earlier.len() {
                assert(framed(unframed(earlier))[i] == earlier[i]);
                assert(frame_at(bytes, 12 * i) == frame_at(unframed(earlier), 12 * i));
            } else {
                let last = frames.last();
                let at = 12 * i;
                assert(word_at(bytes, at) =~= last[0]);
                assert(word_at(bytes, at + 4) =~= last[1]);
                assert(word_at(bytes, at + 8) =~= last[2]);
                assert(frame_at(bytes, at) =~= last);
            }
        }
        assert(cut =~= frames);
    } else {
        assert(framed(unframed(frames)) =~= frames);
    }
}

fn read_word(bytes: &Vec<u8>, at: usize) -> (word: Word)
    requires
        at + 4 <= bytes.len(),
    ensures
        word == word_at(bytes@, at as int),
{
    let word: Word = [bytes[at], bytes[at + 1], bytes[at + 2], bytes[at + 3]];
    assert(word =~= word_at(bytes@, at as int));
    word
}

fn read_frame(bytes: &Vec<u8>, at: usize) -> (frame: FrameBytes)
    requires
        at + 12 <= bytes.len(),
    ensures
        frame == frame_at(bytes@, at as int),
{
    let frame: FrameBytes = [read_word(bytes, at), read_word(bytes, at + 4), read_word(bytes, at + 8)];
    assert(frame =~= frame_at(bytes@, at as int));
    frame
}

/// The positions that the bytes from `from` on hold.
fn frames_from(bytes: &Vec<u8>, from: usize) -> (frames: Vec<FrameBytes>)
    requires
        from <= bytes.len(),
        (bytes.len() - from) % 12 == 0,
    ensures
        frames@ == framed(bytes@.skip(from as int)),
{
    let ghost rest = bytes@.skip(from as int);
    let mut frames: Vec<FrameBytes> = Vec::new();
    let mut at: usize = from;
    while at < bytes.len()
        invariant
            from <= at <= bytes.len(),
            (at - from) % 12 == 0,
            (bytes.len() - from) % 12 == 0,
            rest == bytes@.skip(from as int),
            frames@.len() == (at - from) / 12,
            forall|i: int| 0 <= i < frames@.len() ==> frames@[i] == frame_at(rest, 12 * i),
        decreases bytes@.len() - at,
    {
        let frame = read_frame(bytes, at);
        proof {
            assert(frame_at(bytes@, at as int) =~= frame_at(rest, at - from)) by {
                assert(word_at(bytes@, at as int) =~= word_at(rest, at - from));
                assert(word_at(bytes@, at + 4) =~= word_at(rest, at - from + 4));
                assert(word_at(bytes@, at + 8) =~= word_at(rest, at - from + 8));
            }
        }
        frames.push(frame);
        at += FRAME_BYTES;
    }
    assert(frames@ =~= framed(rest));
    frames
}

/// What a recording file holds before its numbers are read: the three words
/// of its head and the words of its positions.
pub struct Recording {
    pub fps: Word,
    pub frame_stop: Word,
    pub particle_num: Word,
    pub frames: Vec<FrameBytes>,
}

impl Recording {
    /// Whether a file of `len` bytes is a head and whole positions.
    pub open spec fn spec_well_framed(len: usize) -> bool {
        len >= 12 && (len - 12) % 12 == 0
    }

    #[verifier::when_used_as_spec(spec_well_framed)]
    pub fn well_framed(len: usize) -> (yes: bool)
        ensures
            yes == Self::spec_well_framed(len),
    {
        len >= HEADER_BYTES && (len - HEADER_BYTES) % FRAME_BYTES == 0
    }

    /// Cuts bytes that are whole positions into the positions.
    pub fn frames_from_bytes(bytes: &Vec<u8>) -> (frames: Vec<FrameBytes>)
        requires
            bytes.len() % 12 == 0,
        ensures
            frames@ == framed(bytes@),
    {
        let frames = frames_from(bytes, 0);
        assert(bytes@.skip(0) =~= bytes@);
        frames
    }

    /// Cuts the bytes of a file into the head and the positions.
    pub fn from_bytes(bytes: &Vec<u8>) -> (recording: Recording)
        requires
            Self::spec_well_framed(bytes.len()),
        ensures
            recording.fps == word_at(bytes@, 0),
            recording.frame_stop == word_at(bytes@, 4),
            recording.particle_num == word_at(bytes@, 8),
            recording.frames@ == framed(bytes@.skip(12)),
    {
        let fps = read_word(bytes, 0);
        let frame_stop = read_word(bytes, 4);
        let particle_num = read_word(bytes, 8);
        let frames = frames_from(bytes, HEADER_BYTES);

        Recording { fps, frame_stop, particle_num, frames }
    }

    /// The bytes of the file: the head, then the positions.
    pub open spec fn spec_to_bytes(&self) -> Seq<u8> {
        self.fps@ + self.frame_stop@ + self.particle_num@ + unframed(self.frames@)
    }

    /// Writes the head and the positions out as the bytes of a file.
    pub fn to_bytes(&self) -> (bytes: Vec<u8>)
        ensures
            bytes@ == self.spec_to_bytes(),
    {
        let mut bytes: Vec<u8> = Vec::new();
        push_word(&mut bytes, &self.fps);
        push_word(&mut bytes, &self.frame_stop);
        push_word(&mut bytes, &self.particle_num);
        let ghost head = bytes@;

        let mut i: usize = 0;
        while i < self.frames.len()
            invariant
                i <= self.frames@.len(),
                bytes@ == head + unframed(self.frames@.take(i as int)),
            decreases self.frames@.len() - i,
        {
            let ghost so_far = bytes@;
            let frame = &self.frames[i];
            push_word(&mut bytes, &frame[0]);
            push_word(&mut bytes, &frame[1]);
            push_word(&mut bytes, &frame[2]);
            proof {
                let taken = self.frames@.take(i + 1);
                assert(taken.drop_last() =~= self.frames@.take(i as int));
                assert(taken.last() == *frame);
                assert(bytes@ =~= head + unframed(taken));
            }
            i += 1;
        }
        assert(self.frames@.take(i as int) =~= self.frames@);
        bytes
    }

    /// A recording that is written out and cut up again is the same
    /// recording.
    pub proof fn lemma_round_trip(&self)
        ensures
            self.spec_to_bytes().len() == 12 + 12 * self.frames@.len(),
            word_at(self.spec_to_bytes(), 0) == self.fps,
            word_at(self.spec_to_bytes(), 4) == self.frame_stop,
            word_at(self.spec_to_bytes(), 8) == self.particle_num,
            framed(self.spec_to_bytes().skip(12)) == self.frames@,
    {
        let bytes = self.spec_to_bytes();
        lemma_unframed_len(self.frames@);
        lemma_framed_unframed(self.frames@);
        assert(bytes.skip(12) =~= unframed(self.frames@));
        assert(word_at(bytes, 0) =~= self.fps);
        assert(word_at(bytes, 4) =~= self.frame_stop);
        assert(word_at(bytes, 8) =~= self.particle_num);
    }
}

fn push_word(bytes: &mut Vec<u8>, word: &Word)
    ensures
        final(bytes)@ == old(bytes)@ + word@,
{
    bytes.push(word[0]);
    bytes.push(word[1]);
    bytes.push(word[2]);
    bytes.push(word[3]);
    assert(bytes@ =~= old(bytes)@ + word@);
}

/// A recorded simulation while it is replayed: the positions of all
/// particles frame after frame, and the frame that is shown.
pub struct Simulation<T> {
    pub fps: u32,
    pub frame_stop: u32,
    pub particle_num: u32,
    pub frames: Vec<T>,
    pub frame_index: usize,
}

impl<T: Copy> Simulation<T> {
    /// A recording of `frame_stop` frames of `particle_num` particles, every
    /// position `blank`, at its first frame.
    pub fn new(fps: u32, frame_stop: u32, particle_num: u32, blank: T) -> (simulation: Self)
        requires
            particle_num * frame_stop <= u32::MAX,
        ensures
            simulation.fps == fps,
            simulation.frame_stop == frame_stop,
            simulation.particle_num == particle_num,
            simulation.frame_index == 0,
            simulation.frames@ == Seq::new((particle_num * frame_stop) as nat, |i: int| blank),
    {
        let count: u32 = particle_num * frame_stop;
        let mut frames: Vec<T> = Vec::new();
        let mut i: u32 = 0;
        while i < count
            invariant
                i <= count,
                frames@ == Seq::new(i as nat, |i: int| blank),
            decreases count - i,
        {
            frames.push(blank);
            assert(frames@ =~= Seq::new((i + 1) as nat, |i: int| blank));
            i += 1;
        }

        Simulation { fps, frame_stop, particle_num, frames, frame_index: 0 }
    }

    /// Whether the frame that is shown is recorded in full.
    pub open spec fn frame_recorded(&self) -> bool {
        self.particle_num * (self.frame_index + 1) <= self.frames@.len()
    }

    /// What `instances` hold once the frame that is shown has been copied to
    /// their first `particle_num` places; as they were where that frame is not
    /// recorded in full.
    pub open spec fn shown(&self, instances: Seq<T>) -> Seq<T> {
        if self.frame_recorded() {
            self.frames@.subrange(
                self.particle_num * self.frame_index,
                self.particle_num * (self.frame_index + 1),
            ) + instances.skip(self.particle_num as int)
        } else {
            instances
        }
    }

    /// Sets each instance to the position of its particle in the frame that
    /// is shown. Does nothing where that frame is not recorded in full.
    pub fn update_instances(&self, instances: &mut Vec<T>)
        requires
            self.frame_recorded() ==> old(instances)@.len() >= self.particle_num,
        ensures
            final(instances)@ == self.shown(old(instances)@),
    {
        let particle_num: usize = self.particle_num as usize;
        let recorded_frames: usize = self.frames.len();
        if particle_num == 0 {
            proof {
                assert(self.particle_num * self.frame_index == 0) by (nonlinear_arith)
                    requires
                        self.particle_num == 0,
                ;
                assert(self.particle_num * (self.frame_index + 1) == 0) by (nonlinear_arith)
                    requires
                        self.particle_num == 0,
                ;
            }
            assert(self.shown(instances@) =~= instances@);
            return ;
        }
        let recorded = match self.frame_index.checked_add(1) {
            Some(next) => match next.checked_mul(particle_num) {
                Some(end) => end <= recorded_frames,
                None => false,
            },
            None => false,
        };
        proof {
            let next = self.frame_index + 1;
            assert(self.particle_num * next == next * self.particle_num) by (nonlinear_arith);
            assert(self.particle_num * next == self.particle_num * self.frame_index
                + self.particle_num) by (nonlinear_arith)
                requires
                    next == self.frame_index + 1,
            ;
            assert(self.particle_num * self.frame_index >= 0) by (nonlinear_arith);
            assert(next * self.particle_num >= next) by (nonlinear_arith)
                requires
                    self.particle_num >= 1,
                    next >= 0,
            ;
        }
        if !recorded {
            return ;
        }
        let start_index: usize = particle_num * self.frame_index;
        let mut particle: usize = 0;
        while particle < particle_num
            invariant
                particle <= particle_num,
                particle_num == self.particle_num,
                start_index == self.particle_num * self.frame_index,
                recorded_frames == self.frames@.len(),
                start_index + particle_num <= recorded_frames,
                instances@.len() == old(instances)@.len(),
                instances@.len() >= particle_num,
                forall|i: int|
                    0 <= i < particle ==> #[trigger] instances@[i] == self.frames@[start_index + i],
                forall|i: int|
                    particle <= i < instances@.len() ==> #[trigger] instances@[i] == old(
                        instances,
                    )@[i],
            decreases particle_num - particle,
        {
            let index = start_index + particle;
            instances.set(particle, self.frames[index]);
            particle += 1;
        }
        assert(instances@ =~= self.shown(old(instances)@));
    }

    /// Shows the present frame on the instances, then moves `step_length`
    /// frames on.
    pub fn step_forward(&mut self, instances: &mut Vec<T>, step_length: usize)
        requires
            old(self).frame_index + step_length <= usize::MAX,
            old(self).frame_recorded() ==> old(instances)@.len() >= old(self).particle_num,
        ensures
            final(instances)@ == old(self).shown(old(instances)@),
            final(self).frame_index == old(self).frame_index + step_length,
            final(self).fps == old(self).fps,
            final(self).frame_stop == old(self).frame_stop,
            final(self).particle_num == old(self).particle_num,
            final(self).frames == old(self).frames,
    {
        self.update_instances(instances);
        self.frame_index += step_length;
    }

    /// Shows the present frame on the instances, then moves `step_length`
    /// frames back.
    pub fn step_back(&mut self, instances: &mut Vec<T>, step_length: usize)
        requires
            step_length <= old(self).frame_index,
            old(self).frame_recorded() ==> old(instances)@.len() >= old(self).particle_num,
        ensures
            final(instances)@ == old(self).shown(old(instances)@),
            final(self).frame_index == old(self).frame_index - step_length,
            final(self).fps == old(self).fps,
            final(self).frame_stop == old(self).frame_stop,
            final(self).particle_num == old(self).particle_num,
            final(self).frames == old(self).frames,
    {
        self.update_instances(instances);
        self.frame_index -= step_length;
    }
}

} // verus!
