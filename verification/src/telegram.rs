use vstd::prelude::*;
use vstd::string::*;
use crate::text::{append_decimal, decimal_text};

verus! {

/// The changed-file list of a notification: one "  • <file>" line per file.
pub open spec fn file_list_text(files: Seq<Seq<char>>) -> Seq<char>
    decreases files.len(),
{
    if files.len() == 0 {
        Seq::empty()
    } else if files.len() == 1 {
        "  \u{2022} "@ + files[0]
    } else {
        file_list_text(files.drop_last()) + "\n"@ + "  \u{2022} "@ + files.last()
    }
}

/// The file list is one bullet line per file, in order, with exactly one
/// line break between consecutive files: a single file gives the line
/// "  • <file>", and the list of two non-empty runs of files is the first
/// run's list, a line break, then the second run's list.
pub proof fn law_file_list_lines(f1: Seq<Seq<char>>, f2: Seq<Seq<char>>, file: Seq<char>)
    requires
        f1.len() > 0,
        f2.len() > 0,
    ensures
        file_list_text(seq![file]) == "  \u{2022} "@ + file,
        file_list_text(f1 + f2) == file_list_text(f1) + "\n"@ + file_list_text(f2),
        file_list_text(Seq::<Seq<char>>::empty()).len() == 0,
    decreases f2.len(),
{
    let all = f1 + f2;
    if f2.len() == 1 {
        assert(all.drop_last() =~= f1);
        assert(all.last() == f2[0]);
        assert(file_list_text(all) =~= file_list_text(f1) + "\n"@ + file_list_text(f2));
    } else {
        law_file_list_lines(f1, f2.drop_last(), file);
        assert(all.drop_last() =~= f1 + f2.drop_last());
        assert(all.last() == f2.last());
        assert(file_list_text(all) =~= file_list_text(f1) + "\n"@ + file_list_text(f2));
    }
}

/// The text of a Copy Send notification. The description falls back to the
/// system name when empty.
pub open spec fn notification_text(
    system_name: Seq<char>,
    username: Seq<char>,
    description: Seq<char>,
    files: Seq<Seq<char>>,
) -> Seq<char> {
    let shown = if description.len() == 0 {
        system_name
    } else {
        description
    };
    "\u{1F514} File Update Notification\n\u{1F4CB} Description: "@ + shown + "\n\u{1F464} User: "@
        + username + "\n\u{1F4C1} System: "@ + system_name + "\n\u{1F4CA} Files changed: "@
        + decimal_text(files.len()) + "\n"@ + file_list_text(files)
}

/// Build the notification text for a Copy Send operation.
pub fn build_notification(
    system_name: &str,
    username: &str,
    description: &str,
    files: &[String],
) -> (text: String)
    ensures
        text@ == notification_text(system_name@, username@, description@, files.deep_view()),
{
    let ghost fs = files.deep_view();
    let mut s = "\u{1F514} File Update Notification\n\u{1F4CB} Description: ".to_owned();
    if description.is_empty() {
        s.append(system_name);
    } else {
        s.append(description);
    }
    s.append("\n\u{1F464} User: ");
    s.append(username);
    s.append("\n\u{1F4C1} System: ");
    s.append(system_name);
    s.append("\n\u{1F4CA} Files changed: ");
    append_decimal(&mut s, files.len());
    s.append("\n");
    let ghost head = s@;
    let mut i: usize = 0;
    while i < files.len()
        invariant
            fs == files.deep_view(),
            i <= fs.len(),
            s@ == head + file_list_text(fs.take(i as int)),
        decreases fs.len() - i,
    {
        proof {
            assert(fs.take(i as int + 1).drop_last() =~= fs.take(i as int));
            assert(fs.take(i as int + 1).last() == files@[i as int]@);
            if i == 0 {
                assert(fs.take(0) =~= Seq::<Seq<char>>::empty());
            }
        }
        if i > 0 {
            s.append("\n");
        }
        s.append("  \u{2022} ");
        s.append(files[i].as_str());
        i = i + 1;
        assert(s@ =~= head + file_list_text(fs.take(i as int)));
    }
    assert(fs.take(fs.len() as int) =~= fs);
    assert(s@ =~= notification_text(system_name@, username@, description@, fs));
    s
}

/// The Bot API endpoint for sending a message with bot `token`, or the error
/// reported when the token or the chat ID is empty.
pub fn telegram_send_url(token: &str, chat_id: &str) -> (r: Result<String, String>)
    ensures
        (token@.len() == 0 || chat_id@.len() == 0) ==> (r matches Err(e) && e@
            == "Telegram token or chat ID is empty"@),
        (token@.len() > 0 && chat_id@.len() > 0) ==> (r matches Ok(url) && url@
            == "https://api.telegram.org/bot"@ + token@ + "/sendMessage"@),
{
    if token.is_empty() || chat_id.is_empty() {
        return Err("Telegram token or chat ID is empty".to_owned());
    }
    let mut url = "https://api.telegram.org/bot".to_owned();
    url.append(token);
    url.append("/sendMessage");
    Ok(url)
}

} // verus!
