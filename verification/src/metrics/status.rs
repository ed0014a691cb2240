//! What holds of the status topics as a whole.

use vstd::prelude::*;
use crate::metrics::snapshot::{packet_name, sys_topic, verb};
use crate::metrics::Snapshot;

verus! {

/// The number of a status topic that is none of a control packet, told from its
/// length and two of its characters.
spec fn plain_mark(topic: Seq<char>) -> int {
    let n = topic.len();
    let a = topic[12];
    let b = topic[n - 5];
    if n == 19 && a == 'v' && b == 'r' {
        0
    } else if n == 18 && a == 'u' && b == 'p' {
        1
    } else if n == 29 && a == 'c' && b == 'e' {
        2
    } else if n == 32 && a == 'c' && b == 'e' {
        3
    } else if n == 25 && a == 'c' && b == 't' {
        4
    } else if n == 27 && a == 'c' && b == 'x' {
        5
    } else if n == 27 && a == 'c' && b == 'p' {
        6
    } else if n == 26 && a == 'b' && b == 'e' {
        7
    } else if n == 22 && a == 'b' && b == '/' {
        8
    } else if n == 29 && a == 'm' && b == 'e' {
        9
    } else if n == 25 && a == 'm' && b == '/' {
        10
    } else if n == 37 && a == 'p' && b == 'e' {
        11
    } else if n == 33 && a == 'p' && b == '/' {
        12
    } else if n == 36 && a == 'p' && b == 'o' {
        13
    } else if n == 34 && a == 'p' && b == 'e' {
        14
    } else if n == 30 && a == 'p' && b == '/' {
        15
    } else if n == 31 && a == 's' && b == 'c' {
        16
    } else if n == 38 && a == 's' && b == 'c' {
        17
    } else if n == 35 && a == 'r' && b == 'c' {
        18
    } else if n == 32 && a == 's' && b == 'c' {
        19
    } else if n == 32 && a == 's' && b == 'b' {
        20
    } else if n == 36 && a == 'c' && b == 'c' {
        21
    } else if n == 36 && a == 'c' && b == 'm' {
        22
    } else if n == 29 && a == 'b' && b == 'e' {
        23
    } else {
        -1
    }
}

/// The number of the status topic of a control packet, told from its length and
/// three of its characters.
spec fn packet_mark(topic: Seq<char>) -> int {
    let n = topic.len();
    let a = topic[17];
    let b = topic[21];
    let c = topic[22];
    if n == 33 && a == 'c' && b == 'e' && c == 'c' {
        24
    } else if n == 29 && a == 'c' && b == 'e' && c == 'c' {
        25
    } else if n == 33 && a == 'c' && b == 'a' && c == 'c' {
        26
    } else if n == 29 && a == 'c' && b == 'a' && c == 'c' {
        27
    } else if n == 33 && a == 'p' && b == 'i' && c == 's' {
        28
    } else if n == 29 && a == 'p' && b == 'i' && c == 's' {
        29
    } else if n == 32 && a == 'p' && b == 'c' && c == 'k' {
        30
    } else if n == 28 && a == 'p' && b == 'c' && c == 'k' {
        31
    } else if n == 32 && a == 'p' && b == 'e' && c == 'c' {
        32
    } else if n == 28 && a == 'p' && b == 'e' && c == 'c' {
        33
    } else if n == 32 && a == 'p' && b == 'e' && c == 'l' {
        34
    } else if n == 28 && a == 'p' && b == 'e' && c == 'l' {
        35
    } else if n == 33 && a == 'p' && b == 'o' && c == 'm' {
        36
    } else if n == 29 && a == 'p' && b == 'o' && c == 'm' {
        37
    } else if n == 35 && a == 's' && b == 'c' && c == 'r' {
        38
    } else if n == 31 && a == 's' && b == 'c' && c == 'r' {
        39
    } else if n == 32 && a == 's' && b == 'c' && c == 'k' {
        40
    } else if n == 28 && a == 's' && b == 'c' && c == 'k' {
        41
    } else if n == 37 && a == 'u' && b == 'b' && c == 's' {
        42
    } else if n == 33 && a == 'u' && b == 'b' && c == 's' {
        43
    } else if n == 34 && a == 'u' && b == 'b' && c == 'a' {
        44
    } else if n == 30 && a == 'u' && b == 'b' && c == 'a' {
        45
    } else if n == 33 && a == 'p' && b == 'r' && c == 'e' {
        46
    } else if n == 29 && a == 'p' && b == 'r' && c == 'e' {
        47
    } else if n == 34 && a == 'p' && b == 'r' && c == 'e' {
        48
    } else if n == 30 && a == 'p' && b == 'r' && c == 'e' {
        49
    } else if n == 36 && a == 'd' && b == 'o' && c == 'n' {
        50
    } else if n == 32 && a == 'd' && b == 'o' && c == 'n' {
        51
    } else if n == 30 && a == 'a' && b == '/' && c == 'r' {
        52
    } else if n == 26 && a == 'a' && b == '/' && c == 's' {
        53
    } else {
        -1
    }
}

/// The number of a status topic. Those of the control packets stand under
/// `mqtt`, and no other one has a `q` there.
#[verifier::opaque]
spec fn topic_mark(topic: Seq<char>) -> int {
    if topic[13] == 'q' {
        packet_mark(topic)
    } else {
        plain_mark(topic)
    }
}

proof fn lemma_plain_marks_0()
    ensures
        topic_mark(sys_topic("version"@)) == 0,
        topic_mark(sys_topic("uptime"@)) == 1,
        topic_mark(sys_topic("clients/connected"@)) == 2,
        topic_mark(sys_topic("clients/disconnected"@)) == 3,
        topic_mark(sys_topic("clients/total"@)) == 4,
        topic_mark(sys_topic("clients/maximum"@)) == 5,
{
    reveal(topic_mark);
    reveal_strlit("$SYS/broker/");
    reveal_strlit("version");
    assert(topic_mark(sys_topic("version"@)) == 0);
    reveal_strlit("uptime");
    assert(topic_mark(sys_topic("uptime"@)) == 1);
    reveal_strlit("clients/connected");
    assert(topic_mark(sys_topic("clients/connected"@)) == 2);
    reveal_strlit("clients/disconnected");
    assert(topic_mark(sys_topic("clients/disconnected"@)) == 3);
    reveal_strlit("clients/total");
    assert(topic_mark(sys_topic("clients/total"@)) == 4);
    reveal_strlit("clients/maximum");
    assert(topic_mark(sys_topic("clients/maximum"@)) == 5);
}

proof fn lemma_plain_marks_1()
    ensures
        topic_mark(sys_topic("clients/expired"@)) == 6,
        topic_mark(sys_topic("bytes/received"@)) == 7,
        topic_mark(sys_topic("bytes/sent"@)) == 8,
        topic_mark(sys_topic("messages/received"@)) == 9,
        topic_mark(sys_topic("messages/sent"@)) == 10,
        topic_mark(sys_topic("publish/messages/received"@)) == 11,
{
    reveal(topic_mark);
    reveal_strlit("$SYS/broker/");
    reveal_strlit("clients/expired");
    assert(topic_mark(sys_topic("clients/expired"@)) == 6);
    reveal_strlit("bytes/received");
    assert(topic_mark(sys_topic("bytes/received"@)) == 7);
    reveal_strlit("bytes/sent");
    assert(topic_mark(sys_topic("bytes/sent"@)) == 8);
    reveal_strlit("messages/received");
    assert(topic_mark(sys_topic("messages/received"@)) == 9);
    reveal_strlit("messages/sent");
    assert(topic_mark(sys_topic("messages/sent"@)) == 10);
    reveal_strlit("publish/messages/received");
    assert(topic_mark(sys_topic("publish/messages/received"@)) == 11);
}

proof fn lemma_plain_marks_2()
    ensures
        topic_mark(sys_topic("publish/messages/sent"@)) == 12,
        topic_mark(sys_topic("publish/messages/dropped"@)) == 13,
        topic_mark(sys_topic("publish/bytes/received"@)) == 14,
        topic_mark(sys_topic("publish/bytes/sent"@)) == 15,
        topic_mark(sys_topic("subscriptions/count"@)) == 16,
        topic_mark(sys_topic("shared_subscriptions/count"@)) == 17,
{
    reveal(topic_mark);
    reveal_strlit("$SYS/broker/");
    reveal_strlit("publish/messages/sent");
    assert(topic_mark(sys_topic("publish/messages/sent"@)) == 12);
    reveal_strlit("publish/messages/dropped");
    assert(topic_mark(sys_topic("publish/messages/dropped"@)) == 13);
    reveal_strlit("publish/bytes/received");
    assert(topic_mark(sys_topic("publish/bytes/received"@)) == 14);
    reveal_strlit("publish/bytes/sent");
    assert(topic_mark(sys_topic("publish/bytes/sent"@)) == 15);
    reveal_strlit("subscriptions/count");
    assert(topic_mark(sys_topic("subscriptions/count"@)) == 16);
    reveal_strlit("shared_subscriptions/count");
    assert(topic_mark(sys_topic("shared_subscriptions/count"@)) == 17);
}

proof fn lemma_plain_marks_3()
    ensures
        topic_mark(sys_topic("retained messages/count"@)) == 18,
        topic_mark(sys_topic("store/messages/count"@)) == 19,
        topic_mark(sys_topic("store/messages/bytes"@)) == 20,
        topic_mark(sys_topic("connections/socket/count"@)) == 21,
        topic_mark(sys_topic("connections/rate_limited"@)) == 22,
        topic_mark(sys_topic("bridges/connected"@)) == 23,
{
    reveal(topic_mark);
    reveal_strlit("$SYS/broker/");
    reveal_strlit("retained messages/count");
    assert(topic_mark(sys_topic("retained messages/count"@)) == 18);
    reveal_strlit("store/messages/count");
    assert(topic_mark(sys_topic("store/messages/count"@)) == 19);
    reveal_strlit("store/messages/bytes");
    assert(topic_mark(sys_topic("store/messages/bytes"@)) == 20);
    reveal_strlit("connections/socket/count");
    assert(topic_mark(sys_topic("connections/socket/count"@)) == 21);
    reveal_strlit("connections/rate_limited");
    assert(topic_mark(sys_topic("connections/rate_limited"@)) == 22);
    reveal_strlit("bridges/connected");
    assert(topic_mark(sys_topic("bridges/connected"@)) == 23);
}

proof fn lemma_packet_marks_at(kind: int)
    requires
        1 <= kind <= 15,
    ensures
        topic_mark("$SYS/broker/mqtt/"@ + packet_name(kind) + seq!['/'] + verb(true)) == 22 + 2
            * kind,
        topic_mark("$SYS/broker/mqtt/"@ + packet_name(kind) + seq!['/'] + verb(false)) == 23 + 2
            * kind,
{
    reveal(topic_mark);
    reveal_strlit("$SYS/broker/mqtt/");
    reveal_strlit("received");
    reveal_strlit("sent");
    let root = "$SYS/broker/mqtt/"@;
    let got = verb(true);
    let sent = verb(false);
    if kind == 1 {
        reveal_strlit("connect");
        assert(topic_mark(root + "connect"@ + seq!['/'] + got) == 24);
        assert(topic_mark(root + "connect"@ + seq!['/'] + sent) == 25);
    } else if kind == 2 {
        reveal_strlit("connack");
        assert(topic_mark(root + "connack"@ + seq!['/'] + got) == 26);
        assert(topic_mark(root + "connack"@ + seq!['/'] + sent) == 27);
    } else if kind == 3 {
        reveal_strlit("publish");
        assert(topic_mark(root + "publish"@ + seq!['/'] + got) == 28);
        assert(topic_mark(root + "publish"@ + seq!['/'] + sent) == 29);
    } else if kind == 4 {
        reveal_strlit("puback");
        assert(topic_mark(root + "puback"@ + seq!['/'] + got) == 30);
        assert(topic_mark(root + "puback"@ + seq!['/'] + sent) == 31);
    } else if kind == 5 {
        reveal_strlit("pubrec");
        assert(topic_mark(root + "pubrec"@ + seq!['/'] + got) == 32);
        assert(topic_mark(root + "pubrec"@ + seq!['/'] + sent) == 33);
    } else if kind == 6 {
        reveal_strlit("pubrel");
        assert(topic_mark(root + "pubrel"@ + seq!['/'] + got) == 34);
        assert(topic_mark(root + "pubrel"@ + seq!['/'] + sent) == 35);
    } else if kind == 7 {
        reveal_strlit("pubcomp");
        assert(topic_mark(root + "pubcomp"@ + seq!['/'] + got) == 36);
        assert(topic_mark(root + "pubcomp"@ + seq!['/'] + sent) == 37);
    } else if kind == 8 {
        reveal_strlit("subscribe");
        assert(topic_mark(root + "subscribe"@ + seq!['/'] + got) == 38);
        assert(topic_mark(root + "subscribe"@ + seq!['/'] + sent) == 39);
    } else if kind == 9 {
        reveal_strlit("suback");
        assert(topic_mark(root + "suback"@ + seq!['/'] + got) == 40);
        assert(topic_mark(root + "suback"@ + seq!['/'] + sent) == 41);
    } else if kind == 10 {
        reveal_strlit("unsubscribe");
        assert(topic_mark(root + "unsubscribe"@ + seq!['/'] + got) == 42);
        assert(topic_mark(root + "unsubscribe"@ + seq!['/'] + sent) == 43);
    } else if kind == 11 {
        reveal_strlit("unsuback");
        assert(topic_mark(root + "unsuback"@ + seq!['/'] + got) == 44);
        assert(topic_mark(root + "unsuback"@ + seq!['/'] + sent) == 45);
    } else if kind == 12 {
        reveal_strlit("pingreq");
        assert(topic_mark(root + "pingreq"@ + seq!['/'] + got) == 46);
        assert(topic_mark(root + "pingreq"@ + seq!['/'] + sent) == 47);
    } else if kind == 13 {
        reveal_strlit("pingresp");
        assert(topic_mark(root + "pingresp"@ + seq!['/'] + got) == 48);
        assert(topic_mark(root + "pingresp"@ + seq!['/'] + sent) == 49);
    } else if kind == 14 {
        reveal_strlit("disconnect");
        assert(topic_mark(root + "disconnect"@ + seq!['/'] + got) == 50);
        assert(topic_mark(root + "disconnect"@ + seq!['/'] + sent) == 51);
    } else if kind == 15 {
        reveal_strlit("auth");
        assert(topic_mark(root + "auth"@ + seq!['/'] + got) == 52);
        assert(topic_mark(root + "auth"@ + seq!['/'] + sent) == 53);
    }
}

proof fn lemma_topic_marks(s: Snapshot, i: int)
    requires
        0 <= i < 54,
    ensures
        topic_mark((s.sys_pairs() + s.packet_pairs())[i].0) == i,
{
    lemma_plain_marks_0();
    lemma_plain_marks_1();
    lemma_plain_marks_2();
    lemma_plain_marks_3();
    let t = s.sys_pairs();
    assert(t.len() == 24);
    if i < 24 {
        if i == 0 {
            assert(t[0].0 == sys_topic("version"@));
        }
        if i == 1 {
            assert(t[1].0 == sys_topic("uptime"@));
        }
        if i == 2 {
            assert(t[2].0 == sys_topic("clients/connected"@));
        }
        if i == 3 {
            assert(t[3].0 == sys_topic("clients/disconnected"@));
        }
        if i == 4 {
            assert(t[4].0 == sys_topic("clients/total"@));
        }
        if i == 5 {
            assert(t[5].0 == sys_topic("clients/maximum"@));
        }
        if i == 6 {
            assert(t[6].0 == sys_topic("clients/expired"@));
        }
        if i == 7 {
            assert(t[7].0 == sys_topic("bytes/received"@));
        }
        if i == 8 {
            assert(t[8].0 == sys_topic("bytes/sent"@));
        }
        if i == 9 {
            assert(t[9].0 == sys_topic("messages/received"@));
        }
        if i == 10 {
            assert(t[10].0 == sys_topic("messages/sent"@));
        }
        if i == 11 {
            assert(t[11].0 == sys_topic("publish/messages/received"@));
        }
        if i == 12 {
            assert(t[12].0 == sys_topic("publish/messages/sent"@));
        }
        if i == 13 {
            assert(t[13].0 == sys_topic("publish/messages/dropped"@));
        }
        if i == 14 {
            assert(t[14].0 == sys_topic("publish/bytes/received"@));
        }
        if i == 15 {
            assert(t[15].0 == sys_topic("publish/bytes/sent"@));
        }
        if i == 16 {
            assert(t[16].0 == sys_topic("subscriptions/count"@));
        }
        if i == 17 {
            assert(t[17].0 == sys_topic("shared_subscriptions/count"@));
        }
        if i == 18 {
            assert(t[18].0 == sys_topic("retained messages/count"@));
        }
        if i == 19 {
            assert(t[19].0 == sys_topic("store/messages/count"@));
        }
        if i == 20 {
            assert(t[20].0 == sys_topic("store/messages/bytes"@));
        }
        if i == 21 {
            assert(t[21].0 == sys_topic("connections/socket/count"@));
        }
        if i == 22 {
            assert(t[22].0 == sys_topic("connections/rate_limited"@));
        }
        if i == 23 {
            assert(t[23].0 == sys_topic("bridges/connected"@));
        }
    } else {
        let kind = 1 + (i - 24) / 2;
        lemma_packet_marks_at(kind);
        assert(s.packet_pairs()[i - 24] == s.packet_pair(kind, (i - 24) % 2 == 0));
    }
}

/// No two values are published under one status topic.
pub proof fn status_topics_differ(s: Snapshot, i: int, j: int)
    requires
        0 <= i < j < (s.sys_pairs() + s.packet_pairs()).len(),
    ensures
        (s.sys_pairs() + s.packet_pairs())[i].0 != (s.sys_pairs() + s.packet_pairs())[j].0,
{
    lemma_topic_marks(s, i);
    lemma_topic_marks(s, j);
}

/// Every status topic stands under `$SYS/broker/`.
pub proof fn status_topics_share_their_root(s: Snapshot, i: int)
    requires
        0 <= i < (s.sys_pairs() + s.packet_pairs()).len(),
    ensures
        "$SYS/broker/"@.is_prefix_of((s.sys_pairs() + s.packet_pairs())[i].0),
{
    let root = "$SYS/broker/"@;
    let t = (s.sys_pairs() + s.packet_pairs())[i].0;
    reveal_strlit("$SYS/broker/");
    reveal_strlit("$SYS/broker/mqtt/");
    if i < 24 {
        assert(t == s.sys_pairs()[i].0);
        if i == 0 {
            assert(t == sys_topic("version"@));
        }
        if i == 1 {
            assert(t == sys_topic("uptime"@));
        }
        if i == 2 {
            assert(t == sys_topic("clients/connected"@));
        }
        if i == 3 {
            assert(t == sys_topic("clients/disconnected"@));
        }
        if i == 4 {
            assert(t == sys_topic("clients/total"@));
        }
        if i == 5 {
            assert(t == sys_topic("clients/maximum"@));
        }
        if i == 6 {
            assert(t == sys_topic("clients/expired"@));
        }
        if i == 7 {
            assert(t == sys_topic("bytes/received"@));
        }
        if i == 8 {
            assert(t == sys_topic("bytes/sent"@));
        }
        if i == 9 {
            assert(t == sys_topic("messages/received"@));
        }
        if i == 10 {
            assert(t == sys_topic("messages/sent"@));
        }
        if i == 11 {
            assert(t == sys_topic("publish/messages/received"@));
        }
        if i == 12 {
            assert(t == sys_topic("publish/messages/sent"@));
        }
        if i == 13 {
            assert(t == sys_topic("publish/messages/dropped"@));
        }
        if i == 14 {
            assert(t == sys_topic("publish/bytes/received"@));
        }
        if i == 15 {
            assert(t == sys_topic("publish/bytes/sent"@));
        }
        if i == 16 {
            assert(t == sys_topic("subscriptions/count"@));
        }
        if i == 17 {
            assert(t == sys_topic("shared_subscriptions/count"@));
        }
        if i == 18 {
            assert(t == sys_topic("retained messages/count"@));
        }
        if i == 19 {
            assert(t == sys_topic("store/messages/count"@));
        }
        if i == 20 {
            assert(t == sys_topic("store/messages/bytes"@));
        }
        if i == 21 {
            assert(t == sys_topic("connections/socket/count"@));
        }
        if i == 22 {
            assert(t == sys_topic("connections/rate_limited"@));
        }
        if i == 23 {
            assert(t == sys_topic("bridges/connected"@));
        }
    } else {
        let kind = 1 + (i - 24) / 2;
        assert(s.packet_pairs()[i - 24] == s.packet_pair(kind, (i - 24) % 2 == 0));
    }
    assert(root =~= t.subrange(0, root.len() as int));
}

} // verus!
