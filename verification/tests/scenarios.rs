use rup::codec::{decode_echo, EchoHeader};
use rup::framing::{client_request_bytes, frame_echo, server_reply_bytes};
use rup::generator::Generator;
use rup::probe::RttSample;
use rup::stats::StatsEngine;
use rup::stream::StreamDeframer;

/// Five probes of request size twenty against an echo server: each request
/// datagram goes through the full frame/echo/decode path, and five samples
/// come back with indices zero through four each exactly once and
/// non-negative round-trip times.
#[test]
fn udp_echo_five_probes() {
    let mut engine = StatsEngine::new(false);
    let mut generator = Generator::new(Some(5));
    let mut samples: Vec<RttSample> = Vec::new();
    let mut clock: u64 = 0;

    while !generator.finished() {
        clock += 1;
        let ev = generator.next_request(clock);
        let request = client_request_bytes(ev.index, Some(20), None);
        assert_eq!(request.len(), 20);
        engine.on_request(ev.index, ev.timestamp);

        // The server decodes the datagram and echoes it back re-framed.
        let request_header = decode_echo(&request).unwrap();
        let reply = server_reply_bytes(&request_header);

        // The client decodes the reply and feeds the response event in.
        let response = decode_echo(&reply).unwrap();
        clock += 1;
        let out = engine.on_response(response.id, clock);
        if let Some(sample) = out.outcome.sample {
            samples.push(sample);
        }
    }

    assert_eq!(samples.len(), 5);
    for (i, sample) in samples.iter().enumerate() {
        assert_eq!(sample.index, i as u64);
    }
}

/// Adaptive mode against a server that never responds: once the wait time
/// passes, the timeout eviction emits the pacing pulse that unblocks the
/// generator, and the second request (index one) goes out.
#[test]
fn adaptive_pulse_breaks_deadlock_without_server() {
    let mut engine = StatsEngine::new(true);
    let mut generator = Generator::new(None);

    let e0 = generator.next_request(1_000);
    assert_eq!(e0.index, 0);
    assert!(engine.on_request(e0.index, e0.timestamp));

    // No response ever arrives; the watcher fires after the wait time.
    let t = engine.on_timeout(0);
    assert_eq!(t.evicted, vec![0]);
    assert_eq!(t.pulses, 1);

    // The pulse unblocks the generator: the second request is issued.
    let e1 = generator.next_request(2_000);
    assert_eq!(e1.index, 1);
}

/// A TCP response declaring one hundred bytes arrives split across two
/// separate reads: the header first, the padded body later. The client
/// still reconstructs and discards the full body before reading the next
/// response header.
#[test]
fn tcp_response_split_across_two_reads() {
    let header = EchoHeader { id: 3, len: 100, resp_size: 0 };
    let bytes = frame_echo(&header, 100);
    assert_eq!(bytes.len(), 100);

    let mut deframer = StreamDeframer::new();
    let first = deframer.feed(&bytes[..12]);
    assert!(first.is_empty());
    let second = deframer.feed(&bytes[12..]);
    assert_eq!(second.len(), 1);
    assert_eq!(second[0], header);

    // The padded body is fully consumed: the next header parses cleanly.
    let next = EchoHeader { id: 4, len: 12, resp_size: 0 };
    let third = deframer.feed(&frame_echo(&next, 12));
    assert_eq!(third.len(), 1);
    assert_eq!(third[0], next);
}

/// The split points never matter: any fragmentation of the same stream
/// yields the same headers.
#[test]
fn deframer_is_split_insensitive() {
    let a = EchoHeader { id: 1, len: 37, resp_size: 0 };
    let b = EchoHeader { id: 2, len: 12, resp_size: 0 };
    let c = EchoHeader { id: 3, len: 13, resp_size: 0 };
    let mut stream: Vec<u8> = Vec::new();
    stream.extend_from_slice(&frame_echo(&a, 37));
    stream.extend_from_slice(&frame_echo(&b, 12));
    stream.extend_from_slice(&frame_echo(&c, 13));

    let mut whole = StreamDeframer::new();
    let all_at_once = whole.feed(&stream);
    assert_eq!(all_at_once, vec![a, b, c]);

    let mut pieces = StreamDeframer::new();
    let mut collected: Vec<EchoHeader> = Vec::new();
    for chunk in stream.chunks(5) {
        collected.extend(pieces.feed(chunk));
    }
    assert_eq!(collected, vec![a, b, c]);

    let mut bytewise = StreamDeframer::new();
    let mut one_by_one: Vec<EchoHeader> = Vec::new();
    for byte in &stream {
        one_by_one.extend(bytewise.feed(&[*byte]));
    }
    assert_eq!(one_by_one, vec![a, b, c]);
}
