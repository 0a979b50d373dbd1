//! Where a report goes: the name of its file and the message that carries it.

use vstd::prelude::*;

use crate::clock::{dated_text, is_date_pattern, Moment};
use crate::monitor::MonitorError;

verus! {

proof fn lemma_file_date_pattern()
    ensures
        is_date_pattern("%Y%m%d_%H%M%S"@),
{
    let s = "%Y%m%d_%H%M%S"@;
    reveal_strlit("%Y%m%d_%H%M%S");
    reveal_with_fuel(is_date_pattern, 2);
    assert(s.len() == 13);
    assert(is_date_pattern(s.skip(13)));
    assert(s.skip(11).skip(2) =~= s.skip(13));
    assert(is_date_pattern(s.skip(11)));
    assert(s.skip(9).skip(2) =~= s.skip(11));
    assert(is_date_pattern(s.skip(9)));
    assert(s.skip(7).skip(2) =~= s.skip(9));
    assert(is_date_pattern(s.skip(7)));
    assert(s.skip(6).skip(1) =~= s.skip(7));
    assert(is_date_pattern(s.skip(6)));
    assert(s.skip(4).skip(2) =~= s.skip(6));
    assert(is_date_pattern(s.skip(4)));
    assert(s.skip(2).skip(2) =~= s.skip(4));
    assert(is_date_pattern(s.skip(2)));
}

/// The name of the file of a report that is saved at a given moment.
pub open spec fn report_file_name_of(now: Moment) -> Seq<char> {
    "cpu_report_"@ + dated_text(now.secs, now.nanos, now.offset, "%Y%m%d_%H%M%S"@) + ".json"@
}

/// The name of the file of a report that is saved at the moment `now`.
pub fn report_file_name(now: &Moment) -> (res: String)
    requires
        now.valid(),
    ensures
        res@ == report_file_name_of(*now),
{
    proof {
        lemma_file_date_pattern();
    }
    let date: String = now.format("%Y%m%d_%H%M%S");
    let mut name: String = "cpu_report_".to_owned();
    name.append(date.as_str());
    name.append(".json");
    name
}

/// Whether a report is to be sent: only where a room is named.
pub fn wants_delivery(room_id: &str) -> (res: bool)
    ensures
        res == (room_id@.len() > 0),
{
    !room_id.is_empty()
}

/// The message that carries a report to a room.
#[derive(Debug)]
pub struct DeliveryForm {
    pub message: String,
    pub room: String,
    pub file_name: String,
    pub mime: String,
}

/// The message that carries a report to the room `room_id`.
pub fn delivery_form(room_id: &str) -> (res: DeliveryForm)
    ensures
        res.message@ == "Закончен анализ процессорного времени"@,
        res.room@ == room_id@,
        res.file_name@ == "report.txt"@,
        res.mime@ == "text/plain"@,
{
    DeliveryForm {
        message: "Закончен анализ процессорного времени".to_owned(),
        room: room_id.to_owned(),
        file_name: "report.txt".to_owned(),
        mime: "text/plain".to_owned(),
    }
}

/// Whether the server took the message, by the code and the text of its status. Any status but a
/// success is an error that names it.
pub fn check_reply(code: u16, status: &str) -> (res: Result<(), MonitorError>)
    ensures
        res is Ok <==> 200 <= code < 300,
        res matches Err(error) ==> error.message@ == "Server returned: "@ + status@,
{
    if 200 <= code && code < 300 {
        Ok(())
    } else {
        let mut message: String = "Server returned: ".to_owned();
        message.append(status);
        Err(MonitorError { message })
    }
}

} // verus!
