//! Encoding of frames as a binary ensemble, and of a whole run as a bundle.

use binary_ensemble::io::bundle::format::{AssignmentFormat, KnownAssetKind};
use binary_ensemble::io::bundle::{AddAssetOptions, BendlStreamSession, BendlWriter};
use binary_ensemble::io::writer::BenStreamWriter;
use binary_ensemble::BenVariant;
use std::io::{Cursor, Write};
use vstd::prelude::*;
use crate::stats::records::{self, Entry, Record};

verus! {

/// Holds an encoder of `binary_ensemble` that writes to memory.
#[verifier::external_body]
pub struct BenEncoder {
    writer: BenStreamWriter<Vec<u8>>,
}

/// The frames that an encoder was handed, in order: labels and repeat count.
pub uninterp spec fn frames_in(encoder: BenEncoder) -> Seq<(Seq<u16>, u16)>;

/// Whether `BenStreamWriter::write_frame` takes a frame in the two-delta format
/// after the given ones.
pub uninterp spec fn frame_taken(
    before: Seq<(Seq<u16>, u16)>,
    labels: Seq<u16>,
    count: u16,
) -> bool;

/// The bytes that `BenStreamWriter::finish_into_inner` hands over after the
/// given frames in the two-delta format, if it hands over any.
pub uninterp spec fn ben_bytes(frames: Seq<(Seq<u16>, u16)>) -> Option<Seq<u8>>;

/// Calls `BenStreamWriter::for_ben` for the two-delta format. It writes its
/// banner to memory, which succeeds, and the new encoder was handed no frame.
#[verifier::external_body]
fn open_encoder() -> (r: Result<BenEncoder, String>)
    ensures
        r is Ok,
        r matches Ok(encoder) ==> frames_in(encoder) == Seq::<(Seq<u16>, u16)>::empty(),
{
    let opened = BenStreamWriter::for_ben(Vec::new(), BenVariant::TwoDelta);
    opened.map(|writer| BenEncoder { writer }).map_err(|e| e.to_string())
}

/// Calls `BenStreamWriter::write_frame`. Whether it takes the frame depends on
/// the frame and on those handed over before it. Nothing is claimed of the
/// wording of an error.
#[verifier::external_body]
fn encode_frame(encoder: &mut BenEncoder, labels: Vec<u16>, count: u16) -> (r: Result<(), String>)
    requires
        count > 0,
    ensures
        r is Ok <==> frame_taken(frames_in(*old(encoder)), labels@, count),
        frames_in(*final(encoder)) == frames_in(*old(encoder)).push((labels@, count)),
{
    encoder.writer.write_frame(labels, count).map_err(|e| e.to_string())
}

/// Calls `BenStreamWriter::finish_into_inner`. What it hands over depends on
/// the frames that the encoder was handed. Nothing is claimed of the wording of
/// an error.
#[verifier::external_body]
fn encoded(encoder: BenEncoder) -> (r: Result<Vec<u8>, String>)
    ensures
        match r {
            Ok(bytes) => ben_bytes(frames_in(encoder)) == Some(bytes@),
            Err(_) => ben_bytes(frames_in(encoder)) is None,
        },
{
    encoder.writer.finish_into_inner().map_err(|e| e.to_string())
}

/// What an asset of a bundle is.
#[derive(Clone, Copy, Debug, PartialEq, Eq, Structural)]
pub enum AssetKind {
    Graph,
    Metadata,
}

/// Holds a writer of `binary_ensemble` for a bundle in memory, before its
/// stream.
#[verifier::external_body]
pub struct BundleWriter {
    writer: BendlWriter<Cursor<Vec<u8>>>,
}

/// Holds a bundle in memory while its stream is written.
#[verifier::external_body]
pub struct BundleSession {
    session: BendlStreamSession<Cursor<Vec<u8>>>,
}

/// Holds a bundle in memory whose stream is written.
#[verifier::external_body]
pub struct WrittenBundle {
    writer: BendlWriter<Cursor<Vec<u8>>>,
}

/// The assets of a bundle, in order: what each is, its bytes, and whether it is
/// marked as JSON.
pub uninterp spec fn assets_in(bundle: BundleWriter) -> Seq<(AssetKind, Seq<u8>, bool)>;

/// The assets of a bundle whose stream is being written.
pub uninterp spec fn session_assets(session: BundleSession) -> Seq<(AssetKind, Seq<u8>, bool)>;

/// The bytes of a stream so far.
pub uninterp spec fn session_bytes(session: BundleSession) -> Seq<u8>;

/// The assets of a bundle whose stream is written.
pub uninterp spec fn written_assets(bundle: WrittenBundle) -> Seq<(AssetKind, Seq<u8>, bool)>;

/// The bytes of a written stream.
pub uninterp spec fn written_bytes(bundle: WrittenBundle) -> Seq<u8>;

/// The sample count that a written stream was given.
pub uninterp spec fn written_samples(bundle: WrittenBundle) -> i64;

/// Whether `BendlWriter::add_known_asset` takes an asset after the given ones.
pub uninterp spec fn asset_taken(
    before: Seq<(AssetKind, Seq<u8>, bool)>,
    kind: AssetKind,
    payload: Seq<u8>,
    is_json: bool,
) -> bool;

/// The bytes that `BendlWriter::finish` hands over for the given assets, stream
/// and sample count, if it hands over any.
pub uninterp spec fn bendl_bytes(
    assets: Seq<(AssetKind, Seq<u8>, bool)>,
    stream: Seq<u8>,
    samples: i64,
) -> Option<Seq<u8>>;

/// Calls `BendlWriter::new` for a stream in the plain format. It writes its
/// header to memory, which succeeds, and the new bundle has no asset.
#[verifier::external_body]
fn open_bundle() -> (r: Result<BundleWriter, String>)
    ensures
        r is Ok,
        r matches Ok(bundle) ==> assets_in(bundle) == Seq::<(AssetKind, Seq<u8>, bool)>::empty(),
{
    let opened = BendlWriter::new(Cursor::new(Vec::new()), AssignmentFormat::Ben);
    opened.map(|writer| BundleWriter { writer }).map_err(|e| e.to_string())
}

/// Calls `BendlWriter::add_known_asset`. Whether it takes the asset depends on
/// the asset and on those before it. Nothing is claimed of the wording of an
/// error, nor of a bundle that refused an asset.
#[verifier::external_body]
fn add_asset(bundle: &mut BundleWriter, kind: AssetKind, payload: &Vec<u8>, is_json: bool) -> (r:
    Result<(), String>)
    ensures
        r is Ok <==> asset_taken(assets_in(*old(bundle)), kind, payload@, is_json),
        r is Ok ==> assets_in(*final(bundle)) == assets_in(*old(bundle)).push(
            (kind, payload@, is_json),
        ),
{
    let known = match kind {
        AssetKind::Graph => KnownAssetKind::Graph,
        AssetKind::Metadata => KnownAssetKind::Metadata,
    };
    let options = AddAssetOptions { is_json, ..AddAssetOptions::defaults() };
    bundle.writer.add_known_asset(known, payload, options).map_err(|e| e.to_string())
}

/// Calls `BendlWriter::into_stream_session`. The header is written again to
/// memory, which succeeds; the stream is empty and the assets stay.
#[verifier::external_body]
fn open_stream(bundle: BundleWriter) -> (r: Result<BundleSession, String>)
    ensures
        r is Ok,
        r matches Ok(session) ==> session_assets(session) == assets_in(bundle),
        r matches Ok(session) ==> session_bytes(session) == Seq::<u8>::empty(),
{
    let opened = bundle.writer.into_stream_session();
    opened.map(|session| BundleSession { session }).map_err(|e| e.to_string())
}

/// Calls `Write::write_all` of `BendlStreamSession`. The bytes are appended in
/// memory, which succeeds; the assets stay.
#[verifier::external_body]
fn write_stream(session: &mut BundleSession, bytes: &Vec<u8>) -> (r: Result<(), String>)
    ensures
        r is Ok,
        session_assets(*final(session)) == session_assets(*old(session)),
        session_bytes(*final(session)) == session_bytes(*old(session)) + bytes@,
{
    session.session.write_all(bytes).map_err(|e| e.to_string())
}

/// Calls `BendlStreamSession::finish_into_writer`, which keeps the assets and
/// the stream and notes the sample count.
#[verifier::external_body]
fn end_stream(session: BundleSession, samples: i64) -> (r: WrittenBundle)
    ensures
        written_assets(r) == session_assets(session),
        written_bytes(r) == session_bytes(session),
        written_samples(r) == samples,
{
    WrittenBundle { writer: session.session.finish_into_writer(samples) }
}

/// Calls `BendlWriter::finish` on a bundle whose stream is written. What it
/// hands over depends on the assets, the stream and the sample count. Nothing
/// is claimed of the wording of an error.
#[verifier::external_body]
fn finish_bundle(bundle: WrittenBundle) -> (r: Result<Vec<u8>, String>)
    ensures
        match r {
            Ok(bytes) => bendl_bytes(
                written_assets(bundle),
                written_bytes(bundle),
                written_samples(bundle),
            ) == Some(bytes@),
            Err(_) => bendl_bytes(
                written_assets(bundle),
                written_bytes(bundle),
                written_samples(bundle),
            ) is None,
        },
{
    let finished = bundle.writer.finish();
    finished.map(|file| file.into_inner()).map_err(|e| e.to_string())
}

/// The frames among entries, in order.
pub open spec fn frames_among(entries: Seq<Entry>) -> Seq<(Seq<u16>, u16)>
    decreases entries.len(),
{
    if entries.len() == 0 {
        Seq::empty()
    } else {
        let before = frames_among(entries.drop_last());
        match entries.last() {
            Entry::Frame(labels, count) => if count > 0 {
                before.push((labels, count as u16))
            } else {
                before
            },
            _ => before,
        }
    }
}

/// What an encoder was handed after frames are offered to it one by one, up to
/// the first that it does not take.
pub open spec fn handed(before: Seq<(Seq<u16>, u16)>, more: Seq<(Seq<u16>, u16)>) -> Seq<
    (Seq<u16>, u16),
>
    decreases more.len(),
{
    if more.len() == 0 {
        before
    } else {
        let rest = more.drop_last();
        if all_taken(before, rest) {
            (before + rest).push(more.last())
        } else {
            handed(before, rest)
        }
    }
}

/// Whether an encoder takes frames one by one.
pub open spec fn all_taken(before: Seq<(Seq<u16>, u16)>, more: Seq<(Seq<u16>, u16)>) -> bool {
    forall|k: int|
        0 <= k < more.len() ==> frame_taken(
            before + more.take(k),
            (#[trigger] more[k]).0,
            more[k].1,
        )
}

/// An encoder that takes all frames was handed them all.
pub proof fn taken_frames_are_handed(
    before: Seq<(Seq<u16>, u16)>,
    more: Seq<(Seq<u16>, u16)>,
)
    requires
        all_taken(before, more),
    ensures
        handed(before, more) == before + more,
{
    if more.len() > 0 {
        taken_before(before, more, more.len() - 1);
        assert(more.take(more.len() - 1) =~= more.drop_last());
        assert((before + more.drop_last()).push(more.last()) =~= before + more);
    } else {
        assert(before + more =~= before);
    }
}

proof fn taken_before(before: Seq<(Seq<u16>, u16)>, more: Seq<(Seq<u16>, u16)>, n: int)
    requires
        0 <= n <= more.len(),
        all_taken(before, more),
    ensures
        all_taken(before, more.take(n)),
{
    let part = more.take(n);
    assert forall|k: int| 0 <= k < part.len() implies frame_taken(
        before + part.take(k),
        (#[trigger] part[k]).0,
        part[k].1,
    ) by {
        assert(part[k] == more[k]);
        assert(part.take(k) =~= more.take(k));
    }
}

/// Frames after one that is not taken change nothing.
proof fn handed_stops(before: Seq<(Seq<u16>, u16)>, more: Seq<(Seq<u16>, u16)>, n: int)
    requires
        0 <= n < more.len(),
        all_taken(before, more.take(n)),
        !frame_taken(before + more.take(n), more[n].0, more[n].1),
    ensures
        !all_taken(before, more),
        handed(before, more) == before + more.take(n + 1),
    decreases more.len(),
{
    let rest = more.drop_last();
    if n == more.len() - 1 {
        assert(rest =~= more.take(n));
        assert((before + rest).push(more.last()) =~= before + more.take(n + 1));
    } else {
        assert(rest.take(n) =~= more.take(n));
        assert(rest.take(n + 1) =~= more.take(n + 1));
        assert(rest[n] == more[n]);
        handed_stops(before, rest, n);
    }
}

/// The frames among the first entries are the first frames.
proof fn frames_of_a_prefix(entries: Seq<Entry>, k: int)
    requires
        0 <= k <= entries.len(),
    ensures
        frames_among(entries.take(k)).len() <= frames_among(entries).len(),
        frames_among(entries.take(k)) == frames_among(entries).take(
            frames_among(entries.take(k)).len() as int,
        ),
    decreases entries.len() - k,
{
    if k < entries.len() {
        frames_of_a_prefix(entries, k + 1);
        assert(entries.take(k + 1).drop_last() =~= entries.take(k));
        let some = frames_among(entries.take(k));
        let more = frames_among(entries.take(k + 1));
        assert(more.take(some.len() as int) =~= some);
        assert(frames_among(entries).take(more.len() as int).take(some.len() as int)
            =~= frames_among(entries).take(some.len() as int));
    } else {
        assert(entries.take(k) =~= entries);
        assert(frames_among(entries).take(frames_among(entries).len() as int) =~= frames_among(
            entries,
        ));
    }
}

/// A binary ensemble as it is written.
pub struct BenStream {
    encoder: BenEncoder,
}

impl BenStream {
    /// The frames offered so far, up to the first that was not taken.
    pub closed spec fn frames(&self) -> Seq<(Seq<u16>, u16)> {
        frames_in(self.encoder)
    }

    /// Starts an empty ensemble.
    pub fn new() -> (r: Result<BenStream, String>)
        ensures
            r matches Ok(stream) && stream.frames() == Seq::<(Seq<u16>, u16)>::empty(),
    {
        match open_encoder() {
            Ok(encoder) => Ok(BenStream { encoder }),
            Err(e) => Err(e),
        }
    }

    /// Writes the frames among records. Other records are passed over, and so
    /// are frames that hold no sample. Fails at the first frame that is not
    /// taken.
    pub fn write(&mut self, records: &Vec<Record>) -> (r: Result<(), String>)
        ensures
            r is Ok <==> all_taken(
                old(self).frames(),
                frames_among(records::entries(records@)),
            ),
            final(self).frames() == handed(
                old(self).frames(),
                frames_among(records::entries(records@)),
            ),
            r is Ok ==> final(self).frames() == old(self).frames() + frames_among(
                records::entries(records@),
            ),
    {
        let ghost all = records::entries(records@);
        let ghost frames = frames_among(all);
        let ghost start = self.frames();
        let mut i: usize = 0;
        assert(all.take(0) =~= Seq::<Entry>::empty());
        assert(self.frames() =~= start + frames_among(all.take(0)));
        while i < records.len()
            invariant
                i <= records.len(),
                all == records::entries(records@),
                frames == frames_among(all),
                start == old(self).frames(),
                self.frames() == start + frames_among(all.take(i as int)),
                all_taken(start, frames_among(all.take(i as int))),
            decreases records.len() - i,
        {
            let ghost before = frames_among(all.take(i as int));
            let ghost after = frames_among(all.take(i + 1));
            assert(all.take(i + 1).drop_last() =~= all.take(i as int));
            assert(all.take(i + 1).last() == records[i as int]@);
            proof {
                frames_of_a_prefix(all, i as int);
                frames_of_a_prefix(all, i + 1);
            }
            if let Record::Frame(labels, count) = &records[i] {
                if *count > 0 {
                    let copy: Vec<u16> = labels.clone();
                    assert(copy@ =~= labels@);
                    proof {
                        assert(after == before.push((labels@, *count)));
                        assert(frames[before.len() as int] == frames.take(
                            after.len() as int,
                        )[before.len() as int]);
                        assert(frames[before.len() as int] == (labels@, *count));
                        assert(frames.take(before.len() as int) == before);
                    }
                    match encode_frame(&mut self.encoder, copy, *count) {
                        Ok(_) => {
                            proof {
                                assert forall|k: int| 0 <= k < after.len() implies frame_taken(
                                    start + after.take(k),
                                    (#[trigger] after[k]).0,
                                    after[k].1,
                                ) by {
                                    if k < before.len() {
                                        assert(after[k] == before[k]);
                                        assert(after.take(k) =~= before.take(k));
                                    } else {
                                        assert(after.take(k) =~= before);
                                    }
                                }
                            }
                        },
                        Err(e) => {
                            proof {
                                handed_stops(start, frames, before.len() as int);
                                assert(frames.take(after.len() as int) =~= after);
                                assert(self.frames() =~= start + after);
                            }
                            return Err(e);
                        },
                    }
                }
            }
            i += 1;
            assert(self.frames() =~= start + frames_among(all.take(i as int)));
        }
        assert(all.take(i as int) =~= all);
        proof {
            taken_frames_are_handed(start, frames);
        }
        Ok(())
    }

    /// The bytes of the ensemble.
    pub fn finish(self) -> (r: Result<Vec<u8>, String>)
        ensures
            match r {
                Ok(bytes) => ben_bytes(self.frames()) == Some(bytes@),
                Err(_) => ben_bytes(self.frames()) is None,
            },
    {
        encoded(self.encoder)
    }
}

/// The assets of a run's bundle: its graph, then its metadata, both JSON.
pub open spec fn run_assets(graph: Seq<u8>, metadata: Seq<u8>) -> Seq<
    (AssetKind, Seq<u8>, bool),
> {
    seq![(AssetKind::Graph, graph, true), (AssetKind::Metadata, metadata, true)]
}

/// The bytes of a bundle of a graph, metadata and an ensemble with its number
/// of samples, if its assets are taken one by one and the bundle is handed over.
pub open spec fn bundle_of(
    graph: Seq<u8>,
    metadata: Seq<u8>,
    stream: Seq<u8>,
    samples: i64,
) -> Option<Seq<u8>> {
    let assets = run_assets(graph, metadata);
    if asset_taken(assets.take(0), AssetKind::Graph, graph, true) && asset_taken(
        assets.take(1),
        AssetKind::Metadata,
        metadata,
        true,
    ) {
        bendl_bytes(assets, stream, samples)
    } else {
        None
    }
}

/// The bytes of a bundle of a graph, metadata and an ensemble with its number
/// of samples. The number must fit the header.
pub fn make_bundle(graph: &Vec<u8>, metadata: &Vec<u8>, stream: &Vec<u8>, samples: u64) -> (r:
    Result<Vec<u8>, String>)
    ensures
        samples > i64::MAX ==> (r matches Err(e) && e@
            == "BENDL sample count exceeds the i64 header field"@),
        samples <= i64::MAX ==> match r {
            Ok(bytes) => bundle_of(graph@, metadata@, stream@, samples as i64) == Some(bytes@),
            Err(_) => bundle_of(graph@, metadata@, stream@, samples as i64) is None,
        },
{
    if samples > i64::MAX as u64 {
        return Err("BENDL sample count exceeds the i64 header field".to_string());
    }
    let ghost assets = run_assets(graph@, metadata@);
    let mut bundle: BundleWriter = match open_bundle() {
        Ok(bundle) => bundle,
        Err(e) => {
            return Err(e);
        },
    };
    assert(assets_in(bundle) =~= assets.take(0));
    match add_asset(&mut bundle, AssetKind::Graph, graph, true) {
        Ok(_) => {},
        Err(e) => {
            return Err(e);
        },
    }
    assert(assets_in(bundle) =~= assets.take(1));
    match add_asset(&mut bundle, AssetKind::Metadata, metadata, true) {
        Ok(_) => {},
        Err(e) => {
            return Err(e);
        },
    }
    assert(assets_in(bundle) =~= assets);
    let mut session: BundleSession = match open_stream(bundle) {
        Ok(session) => session,
        Err(e) => {
            return Err(e);
        },
    };
    match write_stream(&mut session, stream) {
        Ok(_) => {},
        Err(e) => {
            return Err(e);
        },
    }
    assert(session_bytes(session) =~= stream@);
    finish_bundle(end_stream(session, samples as i64))
}

} // verus!
